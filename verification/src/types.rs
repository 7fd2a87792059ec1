//! The vocabulary that every part of the store shares: identities, groups,
//! log positions, the node directory, placements, operations and commands.
use crate::search::{DefinitionView, SearchIndexDefinition, SearchIndexReady};
use crate::text::{decimal, prefixed, to_decimal};
use vstd::prelude::*;

verus! {

pub type NodeId = u64;

pub type ClusterId = u128;

pub type ClientId = u128;

pub type Sequence = u64;

pub type Version = u64;

/// The wire and record protocol this library speaks.
pub const PROTOCOL_VERSION: u32 = 1;

/// The most nodes a cluster directory may list.
pub const MAX_CLUSTER_NODES: usize = 1024;

/// The longest endpoint address, in bytes.
pub const MAX_ENDPOINT_BYTES: usize = 512;

/// A consensus group: the one meta group, or a data partition.
#[derive(Debug, Clone, Copy, PartialEq, Eq, Structural)]
pub enum GroupId {
    Meta,
    Data(u16),
}

impl GroupId {
    /// The group's name inside record keys.
    pub open spec fn spec_token(self) -> Seq<char> {
        match self {
            GroupId::Meta => "meta"@,
            GroupId::Data(p) => "data-"@ + decimal(p as nat),
        }
    }

    /// The group's name inside record keys.
    pub fn token(&self) -> (s: String)
        ensures
            s@ == self.spec_token(),
    {
        match self {
            GroupId::Meta => "meta".to_owned(),
            GroupId::Data(p) => prefixed("data-", to_decimal(*p as u128).as_str()),
        }
    }

    /// The group as messages show it.
    pub open spec fn spec_label(self) -> Seq<char> {
        match self {
            GroupId::Meta => "Meta"@,
            GroupId::Data(p) => "Data("@ + decimal(p as nat) + ")"@,
        }
    }

    /// The group as messages show it.
    pub fn label(&self) -> (s: String)
        ensures
            s@ == self.spec_label(),
    {
        match self {
            GroupId::Meta => "Meta".to_owned(),
            GroupId::Data(p) => {
                let mut s = prefixed("Data(", to_decimal(*p as u128).as_str());
                s.append(")");
                s
            },
        }
    }
}

/// A position in a group's replicated log.
#[derive(Debug, Clone, Copy, PartialEq, Eq, Structural)]
pub struct LogId {
    pub term: u64,
    pub index: u64,
}

impl LogId {
    pub fn new(term: u64, index: u64) -> (id: LogId)
        ensures
            id == (LogId { term, index }),
    {
        LogId { term, index }
    }
}

/// A directory member's liveness and drain state.
#[derive(Debug, Clone, Copy, PartialEq, Eq, Structural)]
pub enum NodeState {
    Active,
    Suspect,
    Down,
    Draining,
}

impl NodeState {
    /// The state as reports show it.
    pub open spec fn spec_label(self) -> Seq<char> {
        match self {
            NodeState::Active => "Active"@,
            NodeState::Suspect => "Suspect"@,
            NodeState::Down => "Down"@,
            NodeState::Draining => "Draining"@,
        }
    }

    /// The state as reports show it.
    pub fn label(&self) -> (s: &'static str)
        ensures
            s@ == self.spec_label(),
    {
        match self {
            NodeState::Active => "Active",
            NodeState::Suspect => "Suspect",
            NodeState::Down => "Down",
            NodeState::Draining => "Draining",
        }
    }
}

/// How keys are assigned to partitions.
#[derive(Debug, Clone, Copy, PartialEq, Eq, Structural)]
pub enum HashSpec {
    /// The 64-bit XXH3 hash of the key, modulo the partition count.
    Xxh3,
}

impl HashSpec {
    pub const CANONICAL: HashSpec = HashSpec::Xxh3;
}

/// The immutable parameters of a cluster.
#[derive(Debug, Clone, Copy, PartialEq, Eq, Structural)]
pub struct ClusterConfig {
    pub cluster_id: ClusterId,
    pub protocol_version: u32,
    pub p: u16,
    pub r: u8,
    pub hash_spec: HashSpec,
}

/// The cluster and node a data directory belongs to.
#[derive(Debug, Clone, Copy, PartialEq, Eq, Structural)]
pub struct Identity {
    pub cluster_id: ClusterId,
    pub node_id: NodeId,
}

/// Whether this process may serve a group it holds on disk.
#[derive(Debug, Clone, Copy, PartialEq, Eq, Structural)]
pub enum ServingState {
    Serving,
    NonServing,
}

/// One member of the replicated node directory.
#[derive(Debug, Clone, PartialEq, Eq)]
pub struct NodeDirectoryEntry {
    pub node_id: NodeId,
    pub control_addr: String,
    pub bulk_addr: String,
    pub state: NodeState,
    pub incarnation: u64,
}

#[verifier::ext_equal]
pub struct NodeEntryView {
    pub node_id: NodeId,
    pub control_addr: Seq<char>,
    pub bulk_addr: Seq<char>,
    pub state: NodeState,
    pub incarnation: u64,
}

impl View for NodeDirectoryEntry {
    type V = NodeEntryView;

    open spec fn view(&self) -> NodeEntryView {
        NodeEntryView {
            node_id: self.node_id,
            control_addr: self.control_addr@,
            bulk_addr: self.bulk_addr@,
            state: self.state,
            incarnation: self.incarnation,
        }
    }
}

impl NodeDirectoryEntry {
    pub fn duplicate(&self) -> (e: NodeDirectoryEntry)
        ensures
            e@ == self@,
            e == *self,
    {
        NodeDirectoryEntry {
            node_id: self.node_id,
            control_addr: self.control_addr.clone(),
            bulk_addr: self.bulk_addr.clone(),
            state: self.state,
            incarnation: self.incarnation,
        }
    }
}

/// The views of a list's entries.
pub open spec fn entry_views(directory: Seq<NodeDirectoryEntry>) -> Seq<NodeEntryView> {
    directory.map_values(|e: NodeDirectoryEntry| e@)
}

/// A copy of a directory listing.
pub fn duplicate_directory(directory: &[NodeDirectoryEntry]) -> (out: Vec<NodeDirectoryEntry>)
    ensures
        out@ == directory@,
{
    let mut out: Vec<NodeDirectoryEntry> = Vec::new();
    let mut i: usize = 0;
    while i < directory.len()
        invariant
            i <= directory@.len(),
            out@ == directory@.take(i as int),
        decreases directory@.len() - i,
    {
        out.push(directory[i].duplicate());
        proof {
            assert(directory@.take(i + 1) =~= directory@.take(i as int).push(directory@[i as int]));
        }
        i += 1;
    }
    proof {
        assert(directory@.take(i as int) =~= directory@);
    }
    out
}

/// A membership change under way for a group.
#[derive(Debug, Clone, PartialEq, Eq)]
pub struct MovePlan {
    pub plan_id: u64,
    pub target_voters: Vec<NodeId>,
    pub aborting: bool,
}

#[verifier::ext_equal]
pub struct MovePlanView {
    pub plan_id: u64,
    pub target_voters: Seq<NodeId>,
    pub aborting: bool,
}

impl View for MovePlan {
    type V = MovePlanView;

    open spec fn view(&self) -> MovePlanView {
        MovePlanView {
            plan_id: self.plan_id,
            target_voters: self.target_voters@,
            aborting: self.aborting,
        }
    }
}

impl MovePlan {
    pub fn duplicate(&self) -> (m: MovePlan)
        ensures
            m@ == self@,
    {
        MovePlan {
            plan_id: self.plan_id,
            target_voters: self.target_voters.clone(),
            aborting: self.aborting,
        }
    }
}

/// A group's committed voters and the move in flight, if any.
#[derive(Debug, Clone, PartialEq, Eq)]
pub struct Placement {
    pub voters: Vec<NodeId>,
    pub voters_log_id: LogId,
    pub move_plan: Option<MovePlan>,
}

#[verifier::ext_equal]
pub struct PlacementView {
    pub voters: Seq<NodeId>,
    pub voters_log_id: LogId,
    pub move_plan: Option<MovePlanView>,
}

impl View for Placement {
    type V = PlacementView;

    open spec fn view(&self) -> PlacementView {
        PlacementView {
            voters: self.voters@,
            voters_log_id: self.voters_log_id,
            move_plan: match self.move_plan {
                Some(m) => Some(m@),
                None => None,
            },
        }
    }
}

impl Placement {
    pub fn duplicate(&self) -> (p: Placement)
        ensures
            p@ == self@,
    {
        Placement {
            voters: self.voters.clone(),
            voters_log_id: self.voters_log_id,
            move_plan: match &self.move_plan {
                Some(m) => Some(m.duplicate()),
                None => None,
            },
        }
    }
}

/// A write precondition on a key's current version.
#[derive(Debug, Clone, Copy, PartialEq, Eq, Structural)]
pub enum IfVersion {
    Number(Version),
    Absent,
}

/// Whether a key exists, and at which version.
#[derive(Debug, Clone, Copy, PartialEq, Eq, Structural)]
pub enum KeyPresence {
    Present { version: Version },
    Absent,
}

impl KeyPresence {
    /// The presence as messages show it.
    pub open spec fn spec_label(self) -> Seq<char> {
        match self {
            KeyPresence::Present { version } => "Present { version: "@ + decimal(version as nat)
                + " }"@,
            KeyPresence::Absent => "Absent"@,
        }
    }

    /// The presence as messages show it.
    pub fn label(&self) -> (s: String)
        ensures
            s@ == self.spec_label(),
    {
        match self {
            KeyPresence::Present { version } => {
                let mut s = prefixed("Present { version: ", to_decimal(*version as u128).as_str());
                s.append(" }");
                s
            },
            KeyPresence::Absent => "Absent".to_owned(),
        }
    }
}

/// What a mutation did.
#[derive(Debug, Clone, Copy, PartialEq, Eq, Structural)]
pub enum MutationResult {
    Applied { version: Version },
    ConditionFailed { current: KeyPresence },
}

/// A mutation of one user key.
#[derive(Debug, Clone, PartialEq, Eq)]
pub enum DataOp {
    Put { key: Vec<u8>, value: Vec<u8>, if_version: Option<IfVersion> },
    Delete { key: Vec<u8>, if_version: Option<IfVersion> },
}

#[verifier::ext_equal]
pub enum DataOpView {
    Put { key: Seq<u8>, value: Seq<u8>, if_version: Option<IfVersion> },
    Delete { key: Seq<u8>, if_version: Option<IfVersion> },
}

impl View for DataOp {
    type V = DataOpView;

    open spec fn view(&self) -> DataOpView {
        match self {
            DataOp::Put { key, value, if_version } => DataOpView::Put {
                key: key@,
                value: value@,
                if_version: *if_version,
            },
            DataOp::Delete { key, if_version } => DataOpView::Delete {
                key: key@,
                if_version: *if_version,
            },
        }
    }
}

impl DataOpView {
    pub open spec fn key(self) -> Seq<u8> {
        match self {
            DataOpView::Put { key, .. } => key,
            DataOpView::Delete { key, .. } => key,
        }
    }

    pub open spec fn if_version(self) -> Option<IfVersion> {
        match self {
            DataOpView::Put { if_version, .. } => if_version,
            DataOpView::Delete { if_version, .. } => if_version,
        }
    }
}

impl DataOp {
    /// The key the operation changes.
    pub fn key(&self) -> (k: &Vec<u8>)
        ensures
            k@ == self@.key(),
    {
        match self {
            DataOp::Put { key, .. } => key,
            DataOp::Delete { key, .. } => key,
        }
    }

    pub fn duplicate(&self) -> (op: DataOp)
        ensures
            op@ == self@,
    {
        match self {
            DataOp::Put { key, value, if_version } => DataOp::Put {
                key: key.clone(),
                value: value.clone(),
                if_version: *if_version,
            },
            DataOp::Delete { key, if_version } => DataOp::Delete {
                key: key.clone(),
                if_version: *if_version,
            },
        }
    }
}

/// A client's mutation with its idempotency sequence.
#[derive(Debug, Clone, PartialEq, Eq)]
pub struct DataRequest {
    pub client_id: ClientId,
    pub sequence: Sequence,
    pub op: DataOp,
}

#[verifier::ext_equal]
pub struct DataRequestView {
    pub client_id: ClientId,
    pub sequence: Sequence,
    pub op: DataOpView,
}

impl View for DataRequest {
    type V = DataRequestView;

    open spec fn view(&self) -> DataRequestView {
        DataRequestView { client_id: self.client_id, sequence: self.sequence, op: self.op@ }
    }
}

/// How fresh a read must be.
#[derive(Debug, Clone, Copy, PartialEq, Eq, Structural)]
pub enum Consistency {
    Linearizable,
    Stale { min_version: Option<Version> },
}

/// A data leader's report of its committed membership.
#[derive(Debug, Clone, PartialEq, Eq)]
pub struct DataConfigObservation {
    pub group: GroupId,
    pub plan_id: u64,
    pub voter_set: Vec<NodeId>,
    pub config_log_id: LogId,
}

#[verifier::ext_equal]
pub struct ObservationView {
    pub group: GroupId,
    pub plan_id: u64,
    pub voter_set: Seq<NodeId>,
    pub config_log_id: LogId,
}

impl View for DataConfigObservation {
    type V = ObservationView;

    open spec fn view(&self) -> ObservationView {
        ObservationView {
            group: self.group,
            plan_id: self.plan_id,
            voter_set: self.voter_set@,
            config_log_id: self.config_log_id,
        }
    }
}

/// The durable record that lets a genesis group start.
#[derive(Debug, Clone, PartialEq, Eq)]
pub struct BootstrapGroup {
    pub cluster_id: ClusterId,
    pub group: GroupId,
    pub members: Vec<NodeId>,
}

#[verifier::ext_equal]
pub struct BootstrapGroupView {
    pub cluster_id: ClusterId,
    pub group: GroupId,
    pub members: Seq<NodeId>,
}

impl View for BootstrapGroup {
    type V = BootstrapGroupView;

    open spec fn view(&self) -> BootstrapGroupView {
        BootstrapGroupView {
            cluster_id: self.cluster_id,
            group: self.group,
            members: self.members@,
        }
    }
}

impl BootstrapGroup {
    pub fn duplicate(&self) -> (b: BootstrapGroup)
        ensures
            b@ == self@,
    {
        BootstrapGroup {
            cluster_id: self.cluster_id,
            group: self.group,
            members: self.members.clone(),
        }
    }
}

/// The durable record that lets a group start as a learner under a plan.
#[derive(Debug, Clone, Copy, PartialEq, Eq, Structural)]
pub struct LearnerAdmission {
    pub cluster_id: ClusterId,
    pub group: GroupId,
    pub plan_id: u64,
}

/// The replicated registration a process runs under.
#[derive(Debug, Clone, PartialEq, Eq)]
pub struct RegistrationBinding {
    pub cluster_id: ClusterId,
    pub node_id: NodeId,
    pub control_addr: String,
    pub bulk_addr: String,
    pub directory_incarnation: u64,
}

#[verifier::ext_equal]
pub struct BindingView {
    pub cluster_id: ClusterId,
    pub node_id: NodeId,
    pub control_addr: Seq<char>,
    pub bulk_addr: Seq<char>,
    pub directory_incarnation: u64,
}

impl View for RegistrationBinding {
    type V = BindingView;

    open spec fn view(&self) -> BindingView {
        BindingView {
            cluster_id: self.cluster_id,
            node_id: self.node_id,
            control_addr: self.control_addr@,
            bulk_addr: self.bulk_addr@,
            directory_incarnation: self.directory_incarnation,
        }
    }
}

impl RegistrationBinding {
    /// Whether the binding names exactly these endpoints.
    pub fn matches_endpoints(&self, control_addr: &String, bulk_addr: &String) -> (same: bool)
        ensures
            same == (self@.control_addr == control_addr@ && self@.bulk_addr == bulk_addr@),
    {
        self.control_addr == *control_addr && self.bulk_addr == *bulk_addr
    }

    pub fn duplicate(&self) -> (b: RegistrationBinding)
        ensures
            b@ == self@,
    {
        RegistrationBinding {
            cluster_id: self.cluster_id,
            node_id: self.node_id,
            control_addr: self.control_addr.clone(),
            bulk_addr: self.bulk_addr.clone(),
            directory_incarnation: self.directory_incarnation,
        }
    }
}

/// The right of a process to act under its identity. It is lost for good once
/// the process finds itself superseded. It is never copied: all who act for the
/// process share one value, so that none of them can miss that it closed.
#[derive(Debug)]
pub struct ProcessIdentityGate {
    fenced: bool,
}

impl ProcessIdentityGate {
    pub closed spec fn spec_open(&self) -> bool {
        !self.fenced
    }

    pub fn is_open(&self) -> (yes: bool)
        ensures
            yes == self.spec_open(),
    {
        !self.fenced
    }

    /// Close it.
    pub fn fence(&mut self)
        ensures
            !final(self).spec_open(),
    {
        self.fenced = true;
    }
}

impl Default for ProcessIdentityGate {
    fn default() -> (g: ProcessIdentityGate)
        ensures
            g.spec_open(),
    {
        ProcessIdentityGate { fenced: false }
    }
}

/// A command for the meta group's replicated state.
#[allow(inconsistent_fields)]
#[derive(Debug, Clone, PartialEq, Eq)]
pub enum MetaCommand {
    ClusterInit { config: ClusterConfig, meta_voters: Vec<NodeId> },
    RegisterNode { node_id: NodeId, control_addr: String, bulk_addr: String },
    SeedPlacement { group: GroupId, voters: Vec<NodeId> },
    SetNodeState { node_id: NodeId, state: NodeState, incarnation: u64 },
    CreatePlan { group: GroupId, plan_id: u64, target_voters: Vec<NodeId> },
    MarkAborting { group: GroupId, plan_id: u64 },
    FinalizePlan { group: GroupId, plan_id: u64, observation: DataConfigObservation },
    AbortReport { group: GroupId, plan_id: u64, observation: DataConfigObservation },
    CreateSearchIndex { name: String, definition: SearchIndexDefinition },
    CreateSearchIndexGeneration { name: String, definition: SearchIndexDefinition },
    ReportSearchIndexReady { name: String, observation: SearchIndexReady },
    ActivateSearchIndexGeneration { name: String, generation: u64 },
    DropSearchIndex { name: String },
    FinalizeSearchIndexDrop { name: String, generation: u64 },
    CreateSearchIndexWithRevision {
        name: String,
        definition: SearchIndexDefinition,
        engine_revision: u32,
    },
    CreateSearchIndexGenerationWithRevision {
        name: String,
        definition: SearchIndexDefinition,
        engine_revision: u32,
    },
}

#[allow(inconsistent_fields)]
#[verifier::ext_equal]
pub enum MetaCommandView {
    ClusterInit { config: ClusterConfig, meta_voters: Seq<NodeId> },
    RegisterNode { node_id: NodeId, control_addr: Seq<char>, bulk_addr: Seq<char> },
    SeedPlacement { group: GroupId, voters: Seq<NodeId> },
    SetNodeState { node_id: NodeId, state: NodeState, incarnation: u64 },
    CreatePlan { group: GroupId, plan_id: u64, target_voters: Seq<NodeId> },
    MarkAborting { group: GroupId, plan_id: u64 },
    FinalizePlan { group: GroupId, plan_id: u64, observation: ObservationView },
    AbortReport { group: GroupId, plan_id: u64, observation: ObservationView },
    CreateSearchIndex { name: Seq<char>, definition: DefinitionView },
    CreateSearchIndexGeneration { name: Seq<char>, definition: DefinitionView },
    ReportSearchIndexReady { name: Seq<char>, observation: SearchIndexReady },
    ActivateSearchIndexGeneration { name: Seq<char>, generation: u64 },
    DropSearchIndex { name: Seq<char> },
    FinalizeSearchIndexDrop { name: Seq<char>, generation: u64 },
    CreateSearchIndexWithRevision {
        name: Seq<char>,
        definition: DefinitionView,
        engine_revision: u32,
    },
    CreateSearchIndexGenerationWithRevision {
        name: Seq<char>,
        definition: DefinitionView,
        engine_revision: u32,
    },
}

impl View for MetaCommand {
    type V = MetaCommandView;

    open spec fn view(&self) -> MetaCommandView {
        match self {
            MetaCommand::ClusterInit { config, meta_voters } => MetaCommandView::ClusterInit {
                config: *config,
                meta_voters: meta_voters@,
            },
            MetaCommand::RegisterNode { node_id, control_addr, bulk_addr } => {
                MetaCommandView::RegisterNode {
                    node_id: *node_id,
                    control_addr: control_addr@,
                    bulk_addr: bulk_addr@,
                }
            },
            MetaCommand::SeedPlacement { group, voters } => MetaCommandView::SeedPlacement {
                group: *group,
                voters: voters@,
            },
            MetaCommand::SetNodeState { node_id, state, incarnation } => {
                MetaCommandView::SetNodeState {
                    node_id: *node_id,
                    state: *state,
                    incarnation: *incarnation,
                }
            },
            MetaCommand::CreatePlan { group, plan_id, target_voters } => {
                MetaCommandView::CreatePlan {
                    group: *group,
                    plan_id: *plan_id,
                    target_voters: target_voters@,
                }
            },
            MetaCommand::MarkAborting { group, plan_id } => MetaCommandView::MarkAborting {
                group: *group,
                plan_id: *plan_id,
            },
            MetaCommand::FinalizePlan { group, plan_id, observation } => {
                MetaCommandView::FinalizePlan {
                    group: *group,
                    plan_id: *plan_id,
                    observation: observation@,
                }
            },
            MetaCommand::AbortReport { group, plan_id, observation } => {
                MetaCommandView::AbortReport {
                    group: *group,
                    plan_id: *plan_id,
                    observation: observation@,
                }
            },
            MetaCommand::CreateSearchIndex { name, definition } => {
                MetaCommandView::CreateSearchIndex { name: name@, definition: definition@ }
            },
            MetaCommand::CreateSearchIndexGeneration { name, definition } => {
                MetaCommandView::CreateSearchIndexGeneration {
                    name: name@,
                    definition: definition@,
                }
            },
            MetaCommand::ReportSearchIndexReady { name, observation } => {
                MetaCommandView::ReportSearchIndexReady { name: name@, observation: *observation }
            },
            MetaCommand::ActivateSearchIndexGeneration { name, generation } => {
                MetaCommandView::ActivateSearchIndexGeneration {
                    name: name@,
                    generation: *generation,
                }
            },
            MetaCommand::DropSearchIndex { name } => MetaCommandView::DropSearchIndex {
                name: name@,
            },
            MetaCommand::FinalizeSearchIndexDrop { name, generation } => {
                MetaCommandView::FinalizeSearchIndexDrop { name: name@, generation: *generation }
            },
            MetaCommand::CreateSearchIndexWithRevision { name, definition, engine_revision } => {
                MetaCommandView::CreateSearchIndexWithRevision {
                    name: name@,
                    definition: definition@,
                    engine_revision: *engine_revision,
                }
            },
            MetaCommand::CreateSearchIndexGenerationWithRevision {
                name,
                definition,
                engine_revision,
            } => MetaCommandView::CreateSearchIndexGenerationWithRevision {
                name: name@,
                definition: definition@,
                engine_revision: *engine_revision,
            },
        }
    }
}

} // verus!
