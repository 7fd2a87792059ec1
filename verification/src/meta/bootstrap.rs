//! Creating a cluster, resumably. Each durable record is accepted on a retry
//! only when it is identical; a conflicting one fails rather than forking the
//! cluster.
use crate::assoc::lemma_put;
use crate::error::{Error, ErrorView};
use crate::meta::laws::{
    accepts, after_first, agree, is_seed, law_seeding_is_resumable, settled, sound,
};
use crate::meta::node::ProposeOutcome;
use crate::meta::state_machine::{decide, MetaApplyResult, ResultView};
use crate::sets::{holds, same_list};
use crate::storage::{Storage, StorageView};
use crate::text::prefixed;
use crate::types::{
    BootstrapGroup, BootstrapGroupView, ClusterConfig, ClusterId, GroupId, LearnerAdmission,
    LogId, MetaCommand, MetaCommandView, NodeId,
};
use vstd::prelude::*;

verus! {

/// One node's directory coordinates.
#[derive(Debug, Clone, PartialEq, Eq)]
pub struct DirEntry {
    pub node_id: NodeId,
    pub control_addr: String,
    pub bulk_addr: String,
}

/// The content of a directory entry of the descriptor.
#[verifier::ext_equal]
pub struct DirEntryView {
    pub node_id: NodeId,
    pub control_addr: Seq<char>,
    pub bulk_addr: Seq<char>,
}

impl View for DirEntry {
    type V = DirEntryView;

    open spec fn view(&self) -> DirEntryView {
        DirEntryView {
            node_id: self.node_id,
            control_addr: self.control_addr@,
            bulk_addr: self.bulk_addr@,
        }
    }
}

impl DirEntry {
    pub fn duplicate(&self) -> (d: DirEntry)
        ensures
            d@ == self@,
    {
        DirEntry {
            node_id: self.node_id,
            control_addr: self.control_addr.clone(),
            bulk_addr: self.bulk_addr.clone(),
        }
    }
}

/// The immutable description that a cluster is created from: its identity and
/// configuration, the initial meta voters, the node directory, and each
/// partition's initial voters.
#[derive(Debug, Clone, PartialEq, Eq)]
pub struct BootstrapDescriptor {
    pub cluster_id: ClusterId,
    pub config: ClusterConfig,
    pub meta_voters: Vec<NodeId>,
    pub directory: Vec<DirEntry>,
    pub data_placements: Vec<(u16, Vec<NodeId>)>,
}

/// The content of a descriptor.
#[verifier::ext_equal]
pub struct DescriptorView {
    pub cluster_id: ClusterId,
    pub config: ClusterConfig,
    pub meta_voters: Seq<NodeId>,
    pub directory: Seq<DirEntryView>,
    pub data_placements: Seq<(u16, Seq<NodeId>)>,
}

/// The contents of directory entries.
pub open spec fn dir_views(directory: Seq<DirEntry>) -> Seq<DirEntryView> {
    directory.map_values(|d: DirEntry| d@)
}

/// The contents of initial placements.
pub open spec fn seed_views(placements: Seq<(u16, Vec<NodeId>)>) -> Seq<(u16, Seq<NodeId>)> {
    placements.map_values(|p: (u16, Vec<NodeId>)| (p.0, p.1@))
}

impl View for BootstrapDescriptor {
    type V = DescriptorView;

    open spec fn view(&self) -> DescriptorView {
        DescriptorView {
            cluster_id: self.cluster_id,
            config: self.config,
            meta_voters: self.meta_voters@,
            directory: dir_views(self.directory@),
            data_placements: seed_views(self.data_placements@),
        }
    }
}

/// Whether a durable record was written or was already there.
#[derive(Debug, Clone, Copy, PartialEq, Eq, Structural)]
pub enum BootstrapOutcome {
    Created,
    AlreadyPresent,
}

/// Whether a voter is the lowest of some.
pub open spec fn is_lowest(voters: Seq<NodeId>, low: NodeId) -> bool {
    voters.contains(low) && forall|i: int| 0 <= i < voters.len() ==> low <= #[trigger] voters[i]
}

/// The node that initializes a group: its lowest voter. Every node names the
/// same one.
pub fn designated(voters: &[NodeId]) -> (r: Option<NodeId>)
    ensures
        match r {
            None => voters@.len() == 0,
            Some(low) => is_lowest(voters@, low),
        },
{
    if voters.len() == 0 {
        return None;
    }
    let mut low: NodeId = voters[0];
    let mut i: usize = 1;
    while i < voters.len()
        invariant
            1 <= i <= voters@.len(),
            voters@.contains(low),
            forall|j: int| 0 <= j < i ==> low <= #[trigger] voters@[j],
        decreases voters@.len() - i,
    {
        if voters[i] < low {
            low = voters[i];
        }
        i += 1;
    }
    Some(low)
}

/// Two nodes that read the same voters, in whatever order, name the same one.
pub proof fn law_designated_is_unique(a: Seq<NodeId>, b: Seq<NodeId>, x: NodeId, y: NodeId)
    requires
        a.to_set() == b.to_set(),
        is_lowest(a, x),
        is_lowest(b, y),
    ensures
        x == y,
{
    assert(b.to_set().contains(x)) by {
        assert(a.to_set().contains(x));
    }
    assert(a.to_set().contains(y)) by {
        assert(b.to_set().contains(y));
    }
    let i = b.index_of(x);
    let j = a.index_of(y);
    assert(b[i] == x && a[j] == y);
}

// -- durable markers ---------------------------------------------------------

/// What storing a bootstrap marker does: the outcome with the records it
/// leaves, or the conflict.
pub open spec fn marked(s: StorageView, record: BootstrapGroupView) -> Result<
    (BootstrapOutcome, StorageView),
    ErrorView,
> {
    match s.bootstrap_group(record.group) {
        Some(existing) => if existing == record {
            Ok((BootstrapOutcome::AlreadyPresent, s))
        } else {
            Err(
                ErrorView::Config(
                    "conflicting bootstrap record for "@ + record.group.spec_label(),
                ),
            )
        },
        None => Ok((BootstrapOutcome::Created, s.with_bootstrap(record))),
    }
}

/// What storing a learner admission does.
pub open spec fn admitted(s: StorageView, record: LearnerAdmission) -> Result<
    (BootstrapOutcome, StorageView),
    ErrorView,
> {
    match s.learner_admission(record.group) {
        Some(existing) => if existing == record {
            Ok((BootstrapOutcome::AlreadyPresent, s))
        } else {
            Err(
                ErrorView::Config(
                    "conflicting learner admission for "@ + record.group.spec_label(),
                ),
            )
        },
        None => Ok((BootstrapOutcome::Created, s.with_admission(record))),
    }
}

/// Store a group's bootstrap marker. A retry is accepted only when identical.
pub fn ensure_bootstrap_group(storage: &mut Storage, record: &BootstrapGroup) -> (r: Result<
    BootstrapOutcome,
    Error,
>)
    ensures
        match r {
            Ok(outcome) => marked(old(storage)@, record@) == Ok::<
                (BootstrapOutcome, StorageView),
                ErrorView,
            >((outcome, final(storage)@)),
            Err(e) => marked(old(storage)@, record@) == Err::<
                (BootstrapOutcome, StorageView),
                ErrorView,
            >(e@) && final(storage)@ == old(storage)@,
        },
{
    match storage.bootstrap_group(record.group) {
        Some(existing) => {
            if existing.cluster_id == record.cluster_id && existing.group == record.group
                && same_list(&existing.members, &record.members) {
                assert(existing@ =~= record@);
                return Ok(BootstrapOutcome::AlreadyPresent);
            }
            return Err(
                Error::Config(
                    prefixed("conflicting bootstrap record for ", record.group.label().as_str()),
                ),
            );
        },
        None => {},
    }
    storage.add_bootstrap_group(record.duplicate());
    Ok(BootstrapOutcome::Created)
}

/// Store a learner admission, the other way in which a group's state may come
/// to be. A retry is accepted only when identical.
pub fn ensure_learner_admission(storage: &mut Storage, record: &LearnerAdmission) -> (r: Result<
    BootstrapOutcome,
    Error,
>)
    ensures
        match r {
            Ok(outcome) => admitted(old(storage)@, *record) == Ok::<
                (BootstrapOutcome, StorageView),
                ErrorView,
            >((outcome, final(storage)@)),
            Err(e) => admitted(old(storage)@, *record) == Err::<
                (BootstrapOutcome, StorageView),
                ErrorView,
            >(e@) && final(storage)@ == old(storage)@,
        },
{
    match storage.learner_admission(record.group) {
        Some(existing) => {
            if existing == *record {
                return Ok(BootstrapOutcome::AlreadyPresent);
            }
            return Err(
                Error::Config(
                    prefixed("conflicting learner admission for ", record.group.label().as_str()),
                ),
            );
        },
        None => {},
    }
    storage.add_learner_admission(*record);
    Ok(BootstrapOutcome::Created)
}

/// The records of several nodes.
pub open spec fn store_views(stores: Seq<(NodeId, Storage)>) -> Seq<(NodeId, StorageView)> {
    stores.map_values(|e: (NodeId, Storage)| (e.0, e.1@))
}

/// Store a marker on the first nodes of a list, on those of them that are among
/// the voters; the first conflict ends it.
pub open spec fn mark_first(
    stores: Seq<(NodeId, StorageView)>,
    voters: Seq<NodeId>,
    record: BootstrapGroupView,
    n: int,
) -> (Seq<(NodeId, StorageView)>, Option<ErrorView>)
    decreases n,
{
    if n <= 0 {
        (stores, None)
    } else {
        let (done, error) = mark_first(stores, voters, record, n - 1);
        let (id, s) = done[n - 1];
        if error is Some || !voters.contains(id) {
            (done, error)
        } else {
            match marked(s, record) {
                Ok((_, t)) => (done.update(n - 1, (id, t)), None),
                Err(e) => (done, Some(e)),
            }
        }
    }
}

/// Store a marker on every voter's records.
pub open spec fn mark_voters(
    stores: Seq<(NodeId, StorageView)>,
    voters: Seq<NodeId>,
    record: BootstrapGroupView,
) -> (Seq<(NodeId, StorageView)>, Option<ErrorView>) {
    mark_first(stores, voters, record, stores.len() as int)
}

proof fn lemma_mark_stops(
    stores: Seq<(NodeId, StorageView)>,
    voters: Seq<NodeId>,
    record: BootstrapGroupView,
    n: int,
    m: int,
)
    requires
        0 <= n <= m,
        mark_first(stores, voters, record, n).1 is Some,
    ensures
        mark_first(stores, voters, record, m) == mark_first(stores, voters, record, n),
    decreases m - n,
{
    if n < m {
        lemma_mark_stops(stores, voters, record, n, m - 1);
    }
}

fn mark(storages: &mut Vec<(NodeId, Storage)>, voters: &Vec<NodeId>, record: &BootstrapGroup) -> (r:
    Result<(), Error>)
    ensures
        ({
            let (stores, error) = mark_voters(store_views(old(storages)@), voters@, record@);
            &&& store_views(final(storages)@) == stores
            &&& match r {
                Ok(_) => error is None,
                Err(e) => error == Some(e@),
            }
        }),
{
    let ghost before = store_views(storages@);
    let mut i: usize = 0;
    while i < storages.len()
        invariant
            i <= storages@.len(),
            before == store_views(old(storages)@),
            before.len() == storages@.len(),
            (store_views(storages@), None::<ErrorView>) == mark_first(
                before,
                voters@,
                record@,
                i as int,
            ),
        decreases storages@.len() - i,
    {
        let ghost current = storages@;
        if holds(voters, storages[i].0) {
            match ensure_bootstrap_group(&mut storages[i].1, record) {
                Ok(_) => {
                    assert(store_views(storages@) =~= store_views(current).update(
                        i as int,
                        store_views(storages@)[i as int],
                    ));
                },
                Err(e) => {
                    proof {
                        assert(store_views(storages@) =~= store_views(current));
                        lemma_mark_stops(before, voters@, record@, i + 1, before.len() as int);
                    }
                    return Err(e);
                },
            }
        }
        i += 1;
    }
    Ok(())
}

/// The marker of the meta group.
pub open spec fn meta_marker(desc: DescriptorView) -> BootstrapGroupView {
    BootstrapGroupView {
        cluster_id: desc.cluster_id,
        group: GroupId::Meta,
        members: desc.meta_voters,
    }
}

/// The marker of a data group.
pub open spec fn data_marker(desc: DescriptorView, seed: (u16, Seq<NodeId>)) -> BootstrapGroupView {
    BootstrapGroupView {
        cluster_id: desc.cluster_id,
        group: GroupId::Data(seed.0),
        members: seed.1,
    }
}

/// Store the markers of the first partitions on their voters.
pub open spec fn mark_partitions(
    stores: Seq<(NodeId, StorageView)>,
    desc: DescriptorView,
    n: int,
) -> (Seq<(NodeId, StorageView)>, Option<ErrorView>)
    decreases n,
{
    if n <= 0 {
        (stores, None)
    } else {
        let (done, error) = mark_partitions(stores, desc, n - 1);
        if error is Some {
            (done, error)
        } else {
            let seed = desc.data_placements[n - 1];
            mark_voters(done, seed.1, data_marker(desc, seed))
        }
    }
}

proof fn lemma_partitions_stop(
    stores: Seq<(NodeId, StorageView)>,
    desc: DescriptorView,
    n: int,
    m: int,
)
    requires
        0 <= n <= m,
        mark_partitions(stores, desc, n).1 is Some,
    ensures
        mark_partitions(stores, desc, m) == mark_partitions(stores, desc, n),
    decreases m - n,
{
    if n < m {
        lemma_partitions_stop(stores, desc, n, m - 1);
    }
}

/// Store the meta group's marker on each initial meta voter.
pub fn record_meta_bootstrap(storages: &mut Vec<(NodeId, Storage)>, desc: &BootstrapDescriptor) -> (r:
    Result<(), Error>)
    ensures
        ({
            let (stores, error) = mark_voters(
                store_views(old(storages)@),
                desc@.meta_voters,
                meta_marker(desc@),
            );
            &&& store_views(final(storages)@) == stores
            &&& match r {
                Ok(_) => error is None,
                Err(e) => error == Some(e@),
            }
        }),
{
    let record = BootstrapGroup {
        cluster_id: desc.cluster_id,
        group: GroupId::Meta,
        members: desc.meta_voters.clone(),
    };
    mark(storages, &desc.meta_voters, &record)
}

/// Store each data group's marker on its voters.
pub fn record_data_bootstrap(storages: &mut Vec<(NodeId, Storage)>, desc: &BootstrapDescriptor) -> (r:
    Result<(), Error>)
    ensures
        ({
            let (stores, error) = mark_partitions(
                store_views(old(storages)@),
                desc@,
                desc@.data_placements.len() as int,
            );
            &&& store_views(final(storages)@) == stores
            &&& match r {
                Ok(_) => error is None,
                Err(e) => error == Some(e@),
            }
        }),
{
    let ghost before = store_views(storages@);
    let mut i: usize = 0;
    while i < desc.data_placements.len()
        invariant
            i <= desc.data_placements@.len(),
            before == store_views(old(storages)@),
            (store_views(storages@), None::<ErrorView>) == mark_partitions(
                before,
                desc@,
                i as int,
            ),
        decreases desc.data_placements@.len() - i,
    {
        let partition: u16 = desc.data_placements[i].0;
        let voters = &desc.data_placements[i].1;
        let record = BootstrapGroup {
            cluster_id: desc.cluster_id,
            group: GroupId::Data(partition),
            members: voters.clone(),
        };
        assert(record@ =~= data_marker(desc@, desc@.data_placements[i as int]));
        match mark(storages, voters, &record) {
            Ok(_) => {},
            Err(e) => {
                proof {
                    lemma_partitions_stop(
                        before,
                        desc@,
                        i + 1,
                        desc@.data_placements.len() as int,
                    );
                }
                return Err(e);
            },
        }
        i += 1;
    }
    Ok(())
}

// -- seeding the meta group --------------------------------------------------

/// The commands that create the cluster's replicated records: the cluster, then
/// each node, then each placement.
pub open spec fn seed_commands(desc: DescriptorView) -> Seq<MetaCommandView> {
    seq![
        MetaCommandView::ClusterInit { config: desc.config, meta_voters: desc.meta_voters },
    ] + desc.directory.map_values(
        |d: DirEntryView|
            MetaCommandView::RegisterNode {
                node_id: d.node_id,
                control_addr: d.control_addr,
                bulk_addr: d.bulk_addr,
            },
    ) + desc.data_placements.map_values(
        |p: (u16, Seq<NodeId>)|
            MetaCommandView::SeedPlacement { group: GroupId::Data(p.0), voters: p.1 },
    )
}

/// The contents of commands.
pub open spec fn command_views(commands: Seq<MetaCommand>) -> Seq<MetaCommandView> {
    commands.map_values(|c: MetaCommand| c@)
}

/// The commands that create the cluster's replicated records. Each one replays
/// without effect on a resumed bootstrap.
pub fn seed_cluster(desc: &BootstrapDescriptor) -> (commands: Vec<MetaCommand>)
    ensures
        command_views(commands@) == seed_commands(desc@),
{
    let ghost want = seed_commands(desc@);
    let mut commands: Vec<MetaCommand> = Vec::new();
    commands.push(
        MetaCommand::ClusterInit { config: desc.config, meta_voters: desc.meta_voters.clone() },
    );
    let mut i: usize = 0;
    while i < desc.directory.len()
        invariant
            i <= desc.directory@.len(),
            want == seed_commands(desc@),
            commands@.len() == 1 + i,
            forall|k: int| 0 <= k < commands@.len() ==> (#[trigger] commands@[k])@ == want[k],
        decreases desc.directory@.len() - i,
    {
        let d = &desc.directory[i];
        assert(desc@.directory[i as int] == d@);
        commands.push(
            MetaCommand::RegisterNode {
                node_id: d.node_id,
                control_addr: d.control_addr.clone(),
                bulk_addr: d.bulk_addr.clone(),
            },
        );
        i += 1;
    }
    let mut j: usize = 0;
    while j < desc.data_placements.len()
        invariant
            j <= desc.data_placements@.len(),
            want == seed_commands(desc@),
            commands@.len() == 1 + desc.directory@.len() + j,
            forall|k: int| 0 <= k < commands@.len() ==> (#[trigger] commands@[k])@ == want[k],
        decreases desc.data_placements@.len() - j,
    {
        let seed = &desc.data_placements[j];
        assert(desc@.data_placements[j as int] == (seed.0, seed.1@));
        commands.push(
            MetaCommand::SeedPlacement { group: GroupId::Data(seed.0), voters: seed.1.clone() },
        );
        j += 1;
    }
    assert(command_views(commands@) =~= want);
    commands
}

/// What a step of the bootstrap gives: nothing, or the refusal as an error.
pub open spec fn bootstrap_accepted(result: ResultView, what: Seq<char>) -> Option<ErrorView> {
    match result {
        ResultView::Applied => None,
        ResultView::NoOp => None,
        ResultView::Rejected(r) => Some(
            ErrorView::Config("bootstrap "@ + what + " rejected: "@ + r.spec_label()),
        ),
    }
}

/// Accept the outcome of a bootstrap command: a refusal is a hard error.
pub fn accept(result: &MetaApplyResult, what: &str) -> (r: Result<(), Error>)
    ensures
        match r {
            Ok(_) => bootstrap_accepted(result@, what@) is None,
            Err(e) => bootstrap_accepted(result@, what@) == Some(e@),
        },
{
    match result {
        MetaApplyResult::Applied => Ok(()),
        MetaApplyResult::NoOp => Ok(()),
        MetaApplyResult::Rejected(reason) => {
            let mut s = prefixed("bootstrap ", what);
            s.append(" rejected: ");
            s.append(reason.label().as_str());
            Err(Error::Config(s))
        },
    }
}

/// The name under which a command of the bootstrap is reported.
pub fn command_label(command: &MetaCommand) -> (s: &'static str)
    ensures
        match command@ {
            MetaCommandView::ClusterInit { .. } => s@ == "ClusterInit"@,
            MetaCommandView::RegisterNode { .. } => s@ == "RegisterNode"@,
            MetaCommandView::SeedPlacement { .. } => s@ == "SeedPlacement"@,
            _ => s@ == "bootstrap command"@,
        },
{
    match command {
        MetaCommand::ClusterInit { .. } => "ClusterInit",
        MetaCommand::RegisterNode { .. } => "RegisterNode",
        MetaCommand::SeedPlacement { .. } => "SeedPlacement",
        _ => "bootstrap command",
    }
}

/// Whether seeding through the local replica goes on after a proposal: it ends
/// where another replica leads, and fails where the command is refused.
pub open spec fn seeding_goes_on(outcome: Result<ProposeOutcome, Error>) -> Result<bool, ErrorView> {
    match outcome {
        Ok(ProposeOutcome::Applied(result)) => match bootstrap_accepted(
            result@,
            "bootstrap command"@,
        ) {
            None => Ok(true),
            Some(e) => Err(e),
        },
        Ok(ProposeOutcome::NotLeader { .. }) => Ok(false),
        Err(e) => Err(e@),
    }
}

/// Decide whether seeding through the local replica goes on after a proposal. All
/// commands through, the cluster is seeded.
pub fn seed_cluster_if_leader(outcome: Result<ProposeOutcome, Error>) -> (r: Result<bool, Error>)
    ensures
        match r {
            Ok(more) => seeding_goes_on(outcome) == Ok::<bool, ErrorView>(more),
            Err(e) => seeding_goes_on(outcome) == Err::<bool, ErrorView>(e@),
        },
{
    match outcome {
        Ok(ProposeOutcome::Applied(result)) => match accept(&result, "bootstrap command") {
            Ok(_) => Ok(true),
            Err(e) => Err(e),
        },
        Ok(ProposeOutcome::NotLeader { .. }) => Ok(false),
        Err(e) => Err(e),
    }
}

// -- laws --------------------------------------------------------------------

/// A marker can be stored again: the second time it is found, and nothing
/// changes. The marker of every other group is left alone.
pub proof fn law_markers_are_resumable(
    s: StorageView,
    record: BootstrapGroupView,
    outcome: BootstrapOutcome,
    t: StorageView,
    other: GroupId,
)
    requires
        marked(s, record) == Ok::<(BootstrapOutcome, StorageView), ErrorView>((outcome, t)),
    ensures
        t.bootstrap_group(record.group) == Some(record),
        marked(t, record) == Ok::<(BootstrapOutcome, StorageView), ErrorView>(
            (BootstrapOutcome::AlreadyPresent, t),
        ),
        other != record.group ==> t.bootstrap_group(other) == s.bootstrap_group(other),
        t.admissions == s.admissions,
        t.meta == s.meta,
{
    lemma_put(s.bootstrap, record.group, record);
}

/// A group is never given a second, different marker.
pub proof fn law_markers_never_fork(
    s: StorageView,
    first: BootstrapGroupView,
    outcome: BootstrapOutcome,
    t: StorageView,
    second: BootstrapGroupView,
)
    requires
        marked(s, first) == Ok::<(BootstrapOutcome, StorageView), ErrorView>((outcome, t)),
        second.group == first.group,
        second != first,
    ensures
        marked(t, second) is Err,
{
    lemma_put(s.bootstrap, first.group, first);
}

/// The same holds of learner admissions: a retry finds what is there, another
/// admission to the group is refused.
pub proof fn law_admissions_are_resumable(
    s: StorageView,
    record: LearnerAdmission,
    outcome: BootstrapOutcome,
    t: StorageView,
    second: LearnerAdmission,
)
    requires
        admitted(s, record) == Ok::<(BootstrapOutcome, StorageView), ErrorView>((outcome, t)),
        second.group == record.group,
    ensures
        t.learner_admission(record.group) == Some(record),
        admitted(t, record) == Ok::<(BootstrapOutcome, StorageView), ErrorView>(
            (BootstrapOutcome::AlreadyPresent, t),
        ),
        second != record ==> admitted(t, second) is Err,
        t.bootstrap == s.bootstrap,
{
    lemma_put(s.admissions, record.group, record);
}

proof fn lemma_mark_each(
    stores: Seq<(NodeId, StorageView)>,
    voters: Seq<NodeId>,
    record: BootstrapGroupView,
    n: int,
)
    requires
        0 <= n <= stores.len(),
        mark_first(stores, voters, record, n).1 is None,
    ensures
        ({
            let done = mark_first(stores, voters, record, n).0;
            &&& done.len() == stores.len()
            &&& forall|i: int|
                0 <= i < stores.len() ==> (#[trigger] done[i]).0 == stores[i].0
            &&& forall|i: int| n <= i < stores.len() ==> #[trigger] done[i] == stores[i]
            &&& forall|i: int|
                0 <= i < n ==> (#[trigger] done[i]).1 == (if voters.contains(stores[i].0) {
                    marked(stores[i].1, record)->Ok_0.1
                } else {
                    stores[i].1
                })
            &&& forall|i: int|
                0 <= i < n && voters.contains((#[trigger] stores[i]).0) ==> marked(
                    stores[i].1,
                    record,
                ) is Ok
        }),
    decreases n,
{
    if n > 0 {
        lemma_mark_each(stores, voters, record, n - 1);
    }
}

/// Where recording a marker succeeds, every voter among the nodes holds it, and
/// the records of all others are as they were.
pub proof fn law_every_voter_is_marked(
    stores: Seq<(NodeId, StorageView)>,
    voters: Seq<NodeId>,
    record: BootstrapGroupView,
    i: int,
)
    requires
        mark_voters(stores, voters, record).1 is None,
        0 <= i < stores.len(),
    ensures
        ({
            let (id, s) = stores[i];
            let (same, t) = mark_voters(stores, voters, record).0[i];
            &&& same == id
            &&& voters.contains(id) ==> t.bootstrap_group(record.group) == Some(record)
            &&& !voters.contains(id) ==> t == s
        }),
{
    lemma_mark_each(stores, voters, record, stores.len() as int);
    let (id, s) = stores[i];
    let done = mark_voters(stores, voters, record).0;
    assert(done[i].0 == stores[i].0);
    if voters.contains(id) {
        assert(marked(s, record) is Ok);
        let (outcome, t) = marked(s, record)->Ok_0;
        law_markers_are_resumable(s, record, outcome, t, record.group);
    }
}

/// A descriptor whose nodes are distinct can be seeded again: once each of its
/// commands was accepted, each changes nothing.
pub proof fn law_seeds_can_be_repeated(s: StorageView, desc: DescriptorView, at: Seq<LogId>, i: int)
    requires
        sound(s.meta),
        forall|j: int, k: int|
            0 <= j < k < desc.directory.len() ==> (#[trigger] desc.directory[j]).node_id != (
            #[trigger] desc.directory[k]).node_id,
        at.len() == seed_commands(desc).len(),
        0 <= i < at.len(),
        forall|k: int|
            0 <= k < at.len() ==> accepts(
                decide(
                    #[trigger] after_first(s, seed_commands(desc), at, k),
                    seed_commands(desc)[k],
                    at[k],
                ),
            ),
    ensures
        settled(after_first(s, seed_commands(desc), at, at.len() as int), seed_commands(desc)[i]),
{
    let cmds = seed_commands(desc);
    let n = at.len() as int;
    assert forall|k: int| 0 <= k < n implies is_seed(#[trigger] cmds[k]) by {}
    assert forall|j: int, k: int| 0 <= j < n && 0 <= k < n implies agree(
        #[trigger] cmds[j],
        #[trigger] cmds[k],
    ) by {
        if cmds[j] is RegisterNode && cmds[k] is RegisterNode && j != k {
            assert(desc.directory[j - 1].node_id != desc.directory[k - 1].node_id);
        }
    }
    law_seeding_is_resumable(s, cmds, at, n, i);
}

/// A cluster is seeded by its founding, then every listed node, then every listed
/// placement, each as the descriptor has it.
pub proof fn law_seeding_order(desc: DescriptorView, i: int, j: int)
    requires
        0 <= i < desc.directory.len(),
        0 <= j < desc.data_placements.len(),
    ensures
        ({
            let commands = seed_commands(desc);
            let n = desc.directory.len();
            let d = desc.directory[i];
            let p = desc.data_placements[j];
            &&& commands.len() == 1 + n + desc.data_placements.len()
            &&& commands[0] == (MetaCommandView::ClusterInit {
                config: desc.config,
                meta_voters: desc.meta_voters,
            })
            &&& commands[1 + i] == (MetaCommandView::RegisterNode {
                node_id: d.node_id,
                control_addr: d.control_addr,
                bulk_addr: d.bulk_addr,
            })
            &&& commands[1 + n + j] == (MetaCommandView::SeedPlacement {
                group: GroupId::Data(p.0),
                voters: p.1,
            })
        }),
{
}

/// Seeding goes on if and only if the command was accepted by a leader; it waits where
/// this node does not lead, and stops at a refusal.
pub proof fn law_seeding_goes_on(outcome: Result<ProposeOutcome, Error>, what: Seq<char>)
    ensures
        seeding_goes_on(outcome) == Ok::<bool, ErrorView>(true) <==> (outcome matches Ok(
            ProposeOutcome::Applied(result),
        ) && !(result@ is Rejected)),
        seeding_goes_on(outcome) == Ok::<bool, ErrorView>(false) <==> (outcome matches Ok(
            ProposeOutcome::NotLeader { .. },
        )),
{
}

/// A marker is written if and only if there was none, and an equal one is left alone;
/// an admission likewise.
pub proof fn law_markers_are_written_once(
    s: StorageView,
    record: BootstrapGroupView,
    admission: LearnerAdmission,
)
    ensures
        marked(s, record) is Ok <==> s.bootstrap_group(record.group) is None || s.bootstrap_group(
            record.group,
        ) == Some(record),
        marked(s, record) matches Ok((outcome, t)) ==> (outcome is Created <==> s.bootstrap_group(
            record.group,
        ) is None) && (outcome is AlreadyPresent ==> t == s),
        admitted(s, admission) is Ok <==> s.learner_admission(admission.group) is None
            || s.learner_admission(admission.group) == Some(admission),
        admitted(s, admission) matches Ok((outcome, t)) ==> (outcome is Created
            <==> s.learner_admission(admission.group) is None) && (outcome is AlreadyPresent ==> t
            == s),
{
}

/// Once a bootstrap is recorded without a conflict, every node that a partition is
/// placed on holds that partition's marker, with the cluster and the voters that the
/// descriptor gives it.
pub proof fn law_every_partition_is_marked(
    stores: Seq<(NodeId, StorageView)>,
    desc: DescriptorView,
    n: int,
    i: int,
    k: int,
)
    requires
        0 <= k < n <= desc.data_placements.len(),
        mark_partitions(stores, desc, n).1 is None,
        0 <= i < stores.len(),
        desc.data_placements[k].1.contains(stores[i].0),
    ensures
        mark_partitions(stores, desc, n).0.len() == stores.len(),
        mark_partitions(stores, desc, n).0[i].0 == stores[i].0,
        mark_partitions(stores, desc, n).0[i].1.bootstrap_group(
            GroupId::Data(desc.data_placements[k].0),
        ) == Some(
            BootstrapGroupView {
                cluster_id: desc.cluster_id,
                group: GroupId::Data(desc.data_placements[k].0),
                members: desc.data_placements[k].1,
            },
        ),
    decreases n,
{
    let (before, _) = mark_partitions(stores, desc, n - 1);
    let seed = desc.data_placements[n - 1];
    let record = data_marker(desc, seed);
    lemma_partitions_keep_stores(stores, desc, n - 1);
    lemma_mark_each(before, seed.1, record, before.len() as int);
    law_every_voter_is_marked(before, seed.1, record, i);
    if k < n - 1 {
        law_every_partition_is_marked(stores, desc, n - 1, i, k);
        let (id, s) = before[i];
        if seed.1.contains(id) {
            let (outcome, t) = marked(s, record)->Ok_0;
            law_markers_are_resumable(s, record, outcome, t, GroupId::Data(desc.data_placements[k].0));
        }
    }
}

/// Marking keeps the nodes and their order.
proof fn lemma_partitions_keep_stores(
    stores: Seq<(NodeId, StorageView)>,
    desc: DescriptorView,
    n: int,
)
    requires
        mark_partitions(stores, desc, n).1 is None,
    ensures
        mark_partitions(stores, desc, n).0.len() == stores.len(),
        forall|i: int|
            0 <= i < stores.len() ==> (#[trigger] mark_partitions(stores, desc, n).0[i]).0
                == stores[i].0,
    decreases n,
{
    if n > 0 {
        lemma_partitions_keep_stores(stores, desc, n - 1);
        let (before, _) = mark_partitions(stores, desc, n - 1);
        let seed = desc.data_placements[n - 1];
        lemma_mark_each(before, seed.1, data_marker(desc, seed), before.len() as int);
    }
}

} // verus!
