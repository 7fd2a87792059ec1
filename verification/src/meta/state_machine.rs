//! The meta group's state machine. Every rule lives inside apply, so a decision
//! is a function of the committed input and the state, whoever proposed it.
use crate::assoc::holds_key;
use crate::config::{
    routing_shape_defect, validate_routing_shape, MIN_META_VOTERS, MIN_REPLICATION,
};
use crate::error::{Error, ErrorView};
use crate::meta::state::{
    after_all, mutation_views, ready_key, MetaMutation, MetaState, MetaView, MutationView,
    ReadyKey,
};
use crate::search::{
    generation_of, name_defect, same_hash, validate_index_name, DefinitionView, GenerationView,
    RecordView, SearchIndexDefinition, SearchIndexGeneration, SearchIndexReady, SearchIndexRecord,
    SEARCH_MAX_INDEXES, SEARCH_MAX_RETIRING_GENERATIONS,
};
use crate::sets::{
    difference, holds, rising_ids, rising_members, same_members, sort_ids, sorted, without,
    without_id,
};
use crate::storage::{Storage, StorageView};
use crate::text::{decimal, prefixed, quoted, quoted_of, to_decimal};
use crate::types::{
    ClusterConfig, DataConfigObservation, GroupId, Identity, LogId, MetaCommand, MetaCommandView,
    MovePlan, MovePlanView, NodeDirectoryEntry, NodeEntryView, NodeId, NodeState, ObservationView,
    Placement, PlacementView, MAX_CLUSTER_NODES, MAX_ENDPOINT_BYTES, PROTOCOL_VERSION,
};
use vstd::prelude::*;
use vstd::string::StringSliceAdditionalSpecFns;
use vstd::utf8::encode_utf8;

verus! {

/// The engine revision implied by search commands that carry none. It never
/// follows the local binary: replaying an old log must stay deterministic.
pub const LEGACY_SEARCH_ENGINE_REVISION: u32 = 1;

/// The outcome of applying one committed meta command.
#[derive(Debug, Clone, PartialEq, Eq)]
pub enum MetaApplyResult {
    /// The command changed replicated state.
    Applied,
    /// An identical retry, or a transition that changes nothing.
    NoOp,
    /// The command was refused; state is untouched.
    Rejected(MetaReject),
}

/// Why a meta command was refused.
#[derive(Debug, Clone, PartialEq, Eq)]
pub enum MetaReject {
    ClusterNotInitialized,
    /// A re-init that differs from the committed cluster record.
    ClusterConflict,
    InvalidConfig(String),
    /// The group has no placement record.
    NoPlacement,
    /// The group is already placed with another configuration.
    PlacementConflict,
    /// A move already exists for this group.
    PlanExists,
    /// No move exists where one was required.
    NoPlan,
    PlanIdMismatch,
    /// A target that is not a single-voter change, has the wrong size, or
    /// repeats voters.
    IllegalVoterChange(String),
    /// A target voter is not active, or too few nodes are.
    IneligibleTarget,
    /// An observation that does not match the plan.
    ObservationMismatch,
    /// A finalize of a plan already marked aborting.
    PlanAborting,
    /// An abort report for a plan that is not marked aborting.
    NotAborting,
    UnknownNode,
    /// A state change that carries an outdated incarnation.
    StaleIncarnation,
    /// The meta placement is written by cluster init alone.
    SeedMetaForbidden,
    SearchIndexExists,
    SearchIndexNotFound,
    SearchGenerationExists,
    SearchGenerationMismatch,
    SearchGenerationNotReady,
}

#[verifier::ext_equal]
pub enum RejectView {
    ClusterNotInitialized,
    ClusterConflict,
    InvalidConfig(Seq<char>),
    NoPlacement,
    PlacementConflict,
    PlanExists,
    NoPlan,
    PlanIdMismatch,
    IllegalVoterChange(Seq<char>),
    IneligibleTarget,
    ObservationMismatch,
    PlanAborting,
    NotAborting,
    UnknownNode,
    StaleIncarnation,
    SeedMetaForbidden,
    SearchIndexExists,
    SearchIndexNotFound,
    SearchGenerationExists,
    SearchGenerationMismatch,
    SearchGenerationNotReady,
}

impl View for MetaReject {
    type V = RejectView;

    open spec fn view(&self) -> RejectView {
        match self {
            MetaReject::ClusterNotInitialized => RejectView::ClusterNotInitialized,
            MetaReject::ClusterConflict => RejectView::ClusterConflict,
            MetaReject::InvalidConfig(m) => RejectView::InvalidConfig(m@),
            MetaReject::NoPlacement => RejectView::NoPlacement,
            MetaReject::PlacementConflict => RejectView::PlacementConflict,
            MetaReject::PlanExists => RejectView::PlanExists,
            MetaReject::NoPlan => RejectView::NoPlan,
            MetaReject::PlanIdMismatch => RejectView::PlanIdMismatch,
            MetaReject::IllegalVoterChange(m) => RejectView::IllegalVoterChange(m@),
            MetaReject::IneligibleTarget => RejectView::IneligibleTarget,
            MetaReject::ObservationMismatch => RejectView::ObservationMismatch,
            MetaReject::PlanAborting => RejectView::PlanAborting,
            MetaReject::NotAborting => RejectView::NotAborting,
            MetaReject::UnknownNode => RejectView::UnknownNode,
            MetaReject::StaleIncarnation => RejectView::StaleIncarnation,
            MetaReject::SeedMetaForbidden => RejectView::SeedMetaForbidden,
            MetaReject::SearchIndexExists => RejectView::SearchIndexExists,
            MetaReject::SearchIndexNotFound => RejectView::SearchIndexNotFound,
            MetaReject::SearchGenerationExists => RejectView::SearchGenerationExists,
            MetaReject::SearchGenerationMismatch => RejectView::SearchGenerationMismatch,
            MetaReject::SearchGenerationNotReady => RejectView::SearchGenerationNotReady,
        }
    }
}

impl RejectView {
    /// The refusal as messages show it.
    pub open spec fn spec_label(self) -> Seq<char> {
        match self {
            RejectView::ClusterNotInitialized => "ClusterNotInitialized"@,
            RejectView::ClusterConflict => "ClusterConflict"@,
            RejectView::InvalidConfig(m) => "InvalidConfig("@ + quoted_of(m) + ")"@,
            RejectView::NoPlacement => "NoPlacement"@,
            RejectView::PlacementConflict => "PlacementConflict"@,
            RejectView::PlanExists => "PlanExists"@,
            RejectView::NoPlan => "NoPlan"@,
            RejectView::PlanIdMismatch => "PlanIdMismatch"@,
            RejectView::IllegalVoterChange(m) => "IllegalVoterChange("@ + quoted_of(m) + ")"@,
            RejectView::IneligibleTarget => "IneligibleTarget"@,
            RejectView::ObservationMismatch => "ObservationMismatch"@,
            RejectView::PlanAborting => "PlanAborting"@,
            RejectView::NotAborting => "NotAborting"@,
            RejectView::UnknownNode => "UnknownNode"@,
            RejectView::StaleIncarnation => "StaleIncarnation"@,
            RejectView::SeedMetaForbidden => "SeedMetaForbidden"@,
            RejectView::SearchIndexExists => "SearchIndexExists"@,
            RejectView::SearchIndexNotFound => "SearchIndexNotFound"@,
            RejectView::SearchGenerationExists => "SearchGenerationExists"@,
            RejectView::SearchGenerationMismatch => "SearchGenerationMismatch"@,
            RejectView::SearchGenerationNotReady => "SearchGenerationNotReady"@,
        }
    }
}

impl MetaReject {
    /// The refusal as messages show it.
    pub fn label(&self) -> (s: String)
        ensures
            s@ == self@.spec_label(),
    {
        match self {
            MetaReject::ClusterNotInitialized => "ClusterNotInitialized".to_owned(),
            MetaReject::ClusterConflict => "ClusterConflict".to_owned(),
            MetaReject::InvalidConfig(m) => {
                let mut s = prefixed("InvalidConfig(", quoted(m.as_str()).as_str());
                s.append(")");
                s
            },
            MetaReject::NoPlacement => "NoPlacement".to_owned(),
            MetaReject::PlacementConflict => "PlacementConflict".to_owned(),
            MetaReject::PlanExists => "PlanExists".to_owned(),
            MetaReject::NoPlan => "NoPlan".to_owned(),
            MetaReject::PlanIdMismatch => "PlanIdMismatch".to_owned(),
            MetaReject::IllegalVoterChange(m) => {
                let mut s = prefixed("IllegalVoterChange(", quoted(m.as_str()).as_str());
                s.append(")");
                s
            },
            MetaReject::IneligibleTarget => "IneligibleTarget".to_owned(),
            MetaReject::ObservationMismatch => "ObservationMismatch".to_owned(),
            MetaReject::PlanAborting => "PlanAborting".to_owned(),
            MetaReject::NotAborting => "NotAborting".to_owned(),
            MetaReject::UnknownNode => "UnknownNode".to_owned(),
            MetaReject::StaleIncarnation => "StaleIncarnation".to_owned(),
            MetaReject::SeedMetaForbidden => "SeedMetaForbidden".to_owned(),
            MetaReject::SearchIndexExists => "SearchIndexExists".to_owned(),
            MetaReject::SearchIndexNotFound => "SearchIndexNotFound".to_owned(),
            MetaReject::SearchGenerationExists => "SearchGenerationExists".to_owned(),
            MetaReject::SearchGenerationMismatch => "SearchGenerationMismatch".to_owned(),
            MetaReject::SearchGenerationNotReady => "SearchGenerationNotReady".to_owned(),
        }
    }
}

#[verifier::ext_equal]
pub enum ResultView {
    Applied,
    NoOp,
    Rejected(RejectView),
}

impl View for MetaApplyResult {
    type V = ResultView;

    open spec fn view(&self) -> ResultView {
        match self {
            MetaApplyResult::Applied => ResultView::Applied,
            MetaApplyResult::NoOp => ResultView::NoOp,
            MetaApplyResult::Rejected(r) => ResultView::Rejected(r@),
        }
    }
}

/// A decision: the outcome with the changes it makes, or a corrupt record that
/// prevents one.
#[verifier::ext_equal]
pub enum Decision {
    Decided(ResultView, Seq<MutationView>),
    Failed(ErrorView),
}

/// What the executable functions return for a decision.
pub type Evaluation = Result<(MetaApplyResult, Vec<MetaMutation>), Error>;

pub open spec fn decision_of(e: Evaluation) -> Decision {
    match e {
        Ok((result, muts)) => Decision::Decided(result@, mutation_views(muts@)),
        Err(error) => Decision::Failed(error@),
    }
}

pub open spec fn no_change(result: ResultView) -> Decision {
    Decision::Decided(result, Seq::empty())
}

pub open spec fn refused(reason: RejectView) -> Decision {
    no_change(ResultView::Rejected(reason))
}

pub open spec fn refused_invalid(text: Seq<char>) -> Decision {
    refused(RejectView::InvalidConfig(text))
}

pub open spec fn refused_illegal(text: Seq<char>) -> Decision {
    refused(RejectView::IllegalVoterChange(text))
}

pub open spec fn applied(change: MutationView) -> Decision {
    Decision::Decided(ResultView::Applied, seq![change])
}

// -- what each command decides ----------------------------------------------

/// Found the cluster. A retry with the same config and the same meta voters, in
/// any order, changes nothing; any other re-init is a conflict.
pub open spec fn cluster_init_decision(
    s: StorageView,
    config: ClusterConfig,
    meta_voters: Seq<NodeId>,
    log_id: LogId,
) -> Decision {
    match s.meta.cluster {
        Some(existing) => if existing == config && (s.meta.placement(GroupId::Meta) matches Some(p)
            && p.voters.to_set() == meta_voters.to_set()) {
            no_change(ResultView::NoOp)
        } else {
            refused(RejectView::ClusterConflict)
        },
        None => match s.identity {
            None => refused_invalid("cluster init requires a bound storage identity"@),
            Some(identity) => if config.cluster_id != identity.cluster_id {
                refused_invalid("cluster_id differs from the storage identity"@)
            } else if config.protocol_version != PROTOCOL_VERSION {
                refused_invalid("unsupported protocol version"@)
            } else if config.r < MIN_REPLICATION {
                refused_invalid("R below minimum"@)
            } else if config.p == 0 {
                refused_invalid("P must be non-zero"@)
            } else if routing_shape_defect(config.p, config.r) is Some {
                refused_invalid(routing_shape_defect(config.p, config.r)->0.text())
            } else if !meta_voters.no_duplicates() {
                refused_invalid("duplicate meta voter"@)
            } else if meta_voters.len() < MIN_META_VOTERS || meta_voters.len() % 2 == 0 {
                refused_invalid("meta voters must be an odd set of >= 3"@)
            } else if meta_voters.len() > MAX_CLUSTER_NODES {
                refused_invalid("meta voter set exceeds the cluster node limit"@)
            } else {
                Decision::Decided(
                    ResultView::Applied,
                    seq![
                        MutationView::PutCluster { config },
                        MutationView::PutPlacement {
                            group: GroupId::Meta,
                            placement: PlacementView {
                                voters: rising_members(meta_voters.to_set()),
                                voters_log_id: log_id,
                                move_plan: None,
                            },
                        },
                    ],
                )
            },
        },
    }
}

/// Whether another node already answers at one of these endpoints.
pub open spec fn endpoint_taken(
    s: MetaView,
    node_id: NodeId,
    control_addr: Seq<char>,
    bulk_addr: Seq<char>,
) -> bool {
    exists|i: int| 0 <= i < s.nodes.len() && endpoint_clash(#[trigger] s.nodes[i].1, node_id, control_addr, bulk_addr)
}

/// Whether a directory entry of another node has one of these endpoints, on
/// either lane.
pub open spec fn endpoint_clash(
    e: NodeEntryView,
    node_id: NodeId,
    control_addr: Seq<char>,
    bulk_addr: Seq<char>,
) -> bool {
    e.node_id != node_id && (e.control_addr == control_addr || e.bulk_addr == control_addr
        || e.control_addr == bulk_addr || e.bulk_addr == bulk_addr)
}

/// Register a node, or take it back in. A known address leaves a live node as it
/// is; a node that is down, or whose address changed, rejoins with the next
/// incarnation.
pub open spec fn register_node_decision(
    s: MetaView,
    node_id: NodeId,
    control_addr: Seq<char>,
    bulk_addr: Seq<char>,
) -> Decision {
    if s.cluster is None {
        refused(RejectView::ClusterNotInitialized)
    } else if node_id == 0 {
        refused_invalid("node_id must be non-zero"@)
    } else if control_addr.len() == 0 || bulk_addr.len() == 0 {
        refused_invalid("node addresses must be non-empty"@)
    } else if encode_utf8(control_addr).len() > MAX_ENDPOINT_BYTES || encode_utf8(bulk_addr).len()
        > MAX_ENDPOINT_BYTES {
        refused_invalid(
            "node addresses must be <= "@ + decimal(MAX_ENDPOINT_BYTES as nat) + " bytes"@,
        )
    } else if control_addr == bulk_addr {
        refused_invalid("control_addr and bulk_addr must differ"@)
    } else if endpoint_taken(s, node_id, control_addr, bulk_addr) {
        refused_invalid("node addresses are already registered to another node"@)
    } else if s.nodes.len() >= MAX_CLUSTER_NODES && !holds_key(s.nodes, node_id) {
        refused_invalid("cluster node count must be <= "@ + decimal(MAX_CLUSTER_NODES as nat))
    } else {
        match s.node(node_id) {
            None => applied(
                MutationView::PutNode {
                    entry: NodeEntryView {
                        node_id,
                        control_addr,
                        bulk_addr,
                        state: NodeState::Active,
                        incarnation: 1,
                    },
                },
            ),
            Some(e) => if e.control_addr == control_addr && e.bulk_addr == bulk_addr && e.state
                != NodeState::Down {
                no_change(ResultView::NoOp)
            } else if e.incarnation == u64::MAX {
                refused_invalid("node incarnation exhausted"@)
            } else {
                applied(
                    MutationView::PutNode {
                        entry: NodeEntryView {
                            node_id,
                            control_addr,
                            bulk_addr,
                            state: NodeState::Active,
                            incarnation: (e.incarnation + 1) as u64,
                        },
                    },
                )
            },
        }
    }
}

/// Change a node's state. An outdated incarnation is refused, and leaving
/// `Down` takes a strictly newer one.
pub open spec fn set_node_state_decision(
    s: MetaView,
    node_id: NodeId,
    state: NodeState,
    incarnation: u64,
) -> Decision {
    match s.node(node_id) {
        None => refused(RejectView::UnknownNode),
        Some(e) => if incarnation < e.incarnation || (e.state == NodeState::Down && state
            != NodeState::Down && incarnation == e.incarnation) {
            refused(RejectView::StaleIncarnation)
        } else if e.state == state && e.incarnation == incarnation {
            no_change(ResultView::NoOp)
        } else {
            applied(MutationView::PutNode { entry: NodeEntryView { state, incarnation, ..e } })
        },
    }
}

pub open spec fn is_active(s: MetaView, id: NodeId) -> bool {
    s.node(id) matches Some(e) && e.state == NodeState::Active
}

/// Place a data group for the first time, on exactly `r` distinct active nodes.
pub open spec fn seed_placement_decision(
    s: MetaView,
    group: GroupId,
    voters: Seq<NodeId>,
    log_id: LogId,
) -> Decision {
    match (s.cluster, group) {
        (None, _) => refused(RejectView::ClusterNotInitialized),
        (Some(_), GroupId::Meta) => refused(RejectView::SeedMetaForbidden),
        (Some(config), GroupId::Data(partition)) => if partition >= config.p {
            refused_illegal("partition is outside the configured range"@)
        } else if !voters.no_duplicates() {
            refused_illegal("duplicate voter"@)
        } else if voters.len() != config.r {
            refused_illegal("initial voters must number exactly R"@)
        } else if exists|i: int| 0 <= i < voters.len() && !is_active(s, #[trigger] voters[i]) {
            refused(RejectView::IneligibleTarget)
        } else {
            match s.placement(group) {
                Some(existing) => if existing.move_plan is None && existing.voters.to_set()
                    == voters.to_set() {
                    no_change(ResultView::NoOp)
                } else {
                    refused(RejectView::PlacementConflict)
                },
                None => applied(
                    MutationView::PutPlacement {
                        group,
                        placement: PlacementView {
                            voters: rising_members(voters.to_set()),
                            voters_log_id: log_id,
                            move_plan: None,
                        },
                    },
                ),
            }
        },
    }
}

/// How many directory entries are active.
pub open spec fn active_count(nodes: Seq<(NodeId, NodeEntryView)>) -> nat
    decreases nodes.len(),
{
    if nodes.len() == 0 {
        0
    } else {
        active_count(nodes.drop_last()) + if nodes.last().1.state == NodeState::Active {
            1nat
        } else {
            0
        }
    }
}

/// What is wrong with a target voter set, given how many voters it adds and
/// removes.
pub open spec fn plan_defect(
    s: MetaView,
    config: ClusterConfig,
    group: GroupId,
    current: Set<NodeId>,
    target: Set<NodeId>,
) -> Option<Decision> {
    let added = target.difference(current).len();
    let removed = current.difference(target).len();
    match group {
        GroupId::Data(_) => if target.len() != config.r {
            Some(refused_illegal("data target must have exactly R voters"@))
        } else if added != 1 || removed != 1 {
            Some(refused_illegal("data move must change exactly one voter"@))
        } else if active_count(s.nodes) < config.r {
            Some(refused(RejectView::IneligibleTarget))
        } else {
            None
        },
        GroupId::Meta => if target.len() < MIN_META_VOTERS {
            Some(refused_illegal("meta move must not leave < 3 voters"@))
        } else if !(added == 1 && removed == 1 && target.len() == current.len()) && !(added == 0
            && removed == 1 && target.len() + 1 == current.len()) {
            Some(refused_illegal("meta move must be single-voter replacement or removal"@))
        } else {
            None
        },
    }
}

/// Start a move of one voter. The plan takes its id from the log position.
pub open spec fn create_plan_decision(
    s: MetaView,
    group: GroupId,
    target_voters: Seq<NodeId>,
    log_id: LogId,
) -> Decision {
    match (s.cluster, s.placement(group)) {
        (None, _) => refused(RejectView::ClusterNotInitialized),
        (Some(_), None) => refused(RejectView::NoPlacement),
        (Some(config), Some(placement)) => if placement.move_plan is Some {
            refused(RejectView::PlanExists)
        } else if !target_voters.no_duplicates() {
            refused_illegal("duplicate voter"@)
        } else if plan_defect(
            s,
            config,
            group,
            placement.voters.to_set(),
            target_voters.to_set(),
        ) is Some {
            plan_defect(s, config, group, placement.voters.to_set(), target_voters.to_set())->0
        } else if exists|v: NodeId|
            target_voters.contains(v) && !placement.voters.contains(v) && !#[trigger] is_active(
                s,
                v,
            ) {
            refused(RejectView::IneligibleTarget)
        } else {
            applied(
                MutationView::PutPlacement {
                    group,
                    placement: PlacementView {
                        move_plan: Some(
                            MovePlanView {
                                plan_id: log_id.index,
                                target_voters: rising_members(target_voters.to_set()),
                                aborting: false,
                            },
                        ),
                        ..placement
                    },
                },
            )
        },
    }
}

/// Mark a plan as aborting; marking it again changes nothing.
pub open spec fn mark_aborting_decision(s: MetaView, group: GroupId, plan_id: u64) -> Decision {
    match s.placement(group) {
        None => refused(RejectView::NoPlan),
        Some(placement) => match placement.move_plan {
            None => refused(RejectView::NoPlan),
            Some(plan) => if plan.plan_id != plan_id {
                refused(RejectView::PlanIdMismatch)
            } else if plan.aborting {
                no_change(ResultView::NoOp)
            } else {
                applied(
                    MutationView::PutPlacement {
                        group,
                        placement: PlacementView {
                            move_plan: Some(MovePlanView { aborting: true, ..plan }),
                            ..placement
                        },
                    },
                )
            },
        },
    }
}

/// The voters that an observation settles a plan on, if it can: a healthy plan
/// on its target; an aborting one on the original voters or, where the move had
/// completed, on the target.
pub open spec fn settled_voters(
    placement: PlacementView,
    plan: MovePlanView,
    observed: Set<NodeId>,
    is_abort: bool,
) -> Option<Seq<NodeId>> {
    if is_abort && observed == placement.voters.to_set() {
        Some(placement.voters)
    } else if observed == plan.target_voters.to_set() {
        Some(plan.target_voters)
    } else {
        None
    }
}

/// Resolve a plan from an observation of the group's committed membership.
pub open spec fn finalize_plan_decision(
    s: MetaView,
    group: GroupId,
    plan_id: u64,
    observation: ObservationView,
    is_abort: bool,
) -> Decision {
    match s.placement(group) {
        None => refused(RejectView::NoPlan),
        Some(placement) => match placement.move_plan {
            None => refused(RejectView::NoPlan),
            Some(plan) => if plan.plan_id != plan_id {
                refused(RejectView::PlanIdMismatch)
            } else if observation.group != group || observation.plan_id != plan_id {
                refused(RejectView::ObservationMismatch)
            } else if is_abort && !plan.aborting {
                refused(RejectView::NotAborting)
            } else if !is_abort && plan.aborting {
                refused(RejectView::PlanAborting)
            } else {
                match settled_voters(placement, plan, observation.voter_set.to_set(), is_abort) {
                    None => refused(RejectView::ObservationMismatch),
                    Some(voters) => applied(
                        MutationView::PutPlacement {
                            group,
                            placement: PlacementView {
                                voters: sorted(voters),
                                voters_log_id: observation.config_log_id,
                                move_plan: None,
                            },
                        },
                    ),
                }
            },
        },
    }
}

/// The decision to store a catalog record, unless the record itself is wrong.
pub open spec fn stored(record: RecordView) -> Decision {
    match record.defect() {
        Some(e) => refused_invalid(e.text()),
        None => applied(MutationView::PutIndex { record }),
    }
}

/// Whether two generations come from the same definition and engine revision.
pub open spec fn same_build(a: GenerationView, b: GenerationView) -> bool {
    a.definition_hash == b.definition_hash && a.engine_revision == b.engine_revision
}

/// Create an index, or start the next generation of an existing one. A retry
/// that asks for the generation already building changes nothing.
pub open spec fn create_search_index_decision(
    s: MetaView,
    name: Seq<char>,
    definition: DefinitionView,
    engine_revision: u32,
    log_id: LogId,
    update: bool,
) -> Decision {
    if s.cluster is None {
        refused(RejectView::ClusterNotInitialized)
    } else if name_defect(name) is Some {
        refused_invalid(name_defect(name)->0.text())
    } else {
        match generation_of(log_id.index, engine_revision, definition) {
            Err(e) => refused_invalid(e.text()),
            Ok(generation) => match s.index(name) {
                None => if update {
                    refused(RejectView::SearchIndexNotFound)
                } else if s.indexes.len() >= SEARCH_MAX_INDEXES {
                    refused_invalid("search catalog has reached its maximum index count"@)
                } else {
                    stored(
                        RecordView {
                            name,
                            active: None,
                            building: Some(generation),
                            retiring: Seq::empty(),
                        },
                    )
                },
                Some(record) => if record.defect() is Some {
                    Decision::Failed(record.defect()->0)
                } else if !update {
                    if record.active is None && (record.building matches Some(b) && same_build(
                        b,
                        generation,
                    )) {
                        no_change(ResultView::NoOp)
                    } else {
                        refused(RejectView::SearchIndexExists)
                    }
                } else {
                    match record.building {
                        Some(b) => if same_build(b, generation) {
                            no_change(ResultView::NoOp)
                        } else {
                            refused(RejectView::SearchGenerationExists)
                        },
                        None => if record.active is None {
                            refused(RejectView::SearchIndexNotFound)
                        } else if record.retiring.len() >= SEARCH_MAX_RETIRING_GENERATIONS {
                            refused_invalid(
                                "too many retiring search generations; finalize one before updating"@,
                            )
                        } else {
                            stored(RecordView { building: Some(generation), ..record })
                        },
                    }
                },
            },
        }
    }
}

/// Accept a replica's readiness claim for the generation that is building. The
/// replica must vote in the group as it is placed now, and a later claim may not
/// fall behind an earlier one.
pub open spec fn report_search_ready_decision(
    s: MetaView,
    name: Seq<char>,
    claim: SearchIndexReady,
) -> Decision {
    match s.index(name) {
        None => refused(RejectView::SearchIndexNotFound),
        Some(record) => if record.defect() is Some {
            Decision::Failed(record.defect()->0)
        } else {
            match record.building {
                None => refused(RejectView::SearchGenerationMismatch),
                Some(b) => if claim.generation != b.id || claim.definition_hash
                    != b.definition_hash || claim.engine_revision != b.engine_revision {
                    refused(RejectView::SearchGenerationMismatch)
                } else {
                    match claim.group {
                        GroupId::Meta => refused(RejectView::ObservationMismatch),
                        GroupId::Data(partition) => match s.cluster {
                            None => refused(RejectView::ClusterNotInitialized),
                            Some(config) => if partition >= config.p || claim.projection_epoch
                                == 0 {
                                refused(RejectView::ObservationMismatch)
                            } else {
                                match s.placement(claim.group) {
                                    None => refused(RejectView::NoPlacement),
                                    Some(placement) => if placement.move_plan is Some
                                        || placement.voters_log_id != claim.voters_log_id
                                        || !placement.voters.contains(claim.node_id) {
                                        refused(RejectView::ObservationMismatch)
                                    } else {
                                        claim_decision(s, name, claim)
                                    },
                                }
                            },
                        },
                    }
                },
            }
        },
    }
}

/// The last step of a claim: compare it with the one the replica made before.
pub open spec fn claim_decision(s: MetaView, name: Seq<char>, claim: SearchIndexReady) -> Decision {
    match s.claim(ready_key(name, claim)) {
        Some(previous) => if previous == claim {
            no_change(ResultView::NoOp)
        } else if claim.projection_epoch < previous.projection_epoch || (claim.projection_epoch
            == previous.projection_epoch && claim.source_log_id.index
            < previous.source_log_id.index) {
            refused(RejectView::ObservationMismatch)
        } else {
            applied(MutationView::PutReady { name, claim })
        },
        None => applied(MutationView::PutReady { name, claim }),
    }
}

/// Whether a claim stands under an index and generation.
pub open spec fn claim_under(
    e: (ReadyKey, SearchIndexReady),
    name: Seq<char>,
    generation: u64,
) -> bool {
    e.0.0 == name && e.0.1 == generation
}

/// Whether a claim vouches for a replica of a group as it is placed now.
pub open spec fn vouches(
    claim: SearchIndexReady,
    building: GenerationView,
    group: GroupId,
    node_id: NodeId,
    voters_log_id: LogId,
) -> bool {
    claim.generation == building.id && claim.group == group && claim.node_id == node_id
        && claim.voters_log_id == voters_log_id && claim.definition_hash
        == building.definition_hash && claim.engine_revision == building.engine_revision
}

/// Whether some stored claim vouches for a replica.
pub open spec fn replica_ready(
    ready: Seq<(ReadyKey, SearchIndexReady)>,
    name: Seq<char>,
    building: GenerationView,
    group: GroupId,
    node_id: NodeId,
    voters_log_id: LogId,
) -> bool {
    exists|i: int|
        0 <= i < ready.len() && claim_under(#[trigger] ready[i], name, building.id) && vouches(
            ready[i].1,
            building,
            group,
            node_id,
            voters_log_id,
        )
}

/// Whether a partition is settled and every one of its voters is ready.
pub open spec fn partition_ready(
    s: MetaView,
    name: Seq<char>,
    building: GenerationView,
    partition: u16,
) -> bool {
    s.placement(GroupId::Data(partition)) matches Some(placement) && placement.move_plan is None
        && forall|j: int|
        0 <= j < placement.voters.len() ==> replica_ready(
            s.ready,
            name,
            building,
            GroupId::Data(partition),
            #[trigger] placement.voters[j],
            placement.voters_log_id,
        )
}

/// The changes that clear every claim under an index and generation.
pub open spec fn claim_deletes(
    ready: Seq<(ReadyKey, SearchIndexReady)>,
    name: Seq<char>,
    generation: u64,
) -> Seq<MutationView>
    decreases ready.len(),
{
    if ready.len() == 0 {
        Seq::empty()
    } else {
        let rest = claim_deletes(ready.drop_last(), name, generation);
        if claim_under(ready.last(), name, generation) {
            rest.push(MutationView::DeleteReady { key: ready.last().0 })
        } else {
            rest
        }
    }
}

/// A list with `id` at its end, unless it holds `id` already.
pub open spec fn with_id(s: Seq<u64>, id: u64) -> Seq<u64> {
    if s.contains(id) {
        s
    } else {
        s.push(id)
    }
}

/// Make the building generation the active one, once every voter of every
/// partition has built it. Its predecessor retires.
pub open spec fn activate_search_generation_decision(
    s: MetaView,
    name: Seq<char>,
    generation: u64,
) -> Decision {
    match s.index(name) {
        None => refused(RejectView::SearchIndexNotFound),
        Some(record) => if record.defect() is Some {
            Decision::Failed(record.defect()->0)
        } else {
            match record.building {
                None => if record.active matches Some(a) && a.id == generation {
                    no_change(ResultView::NoOp)
                } else {
                    refused(RejectView::SearchGenerationMismatch)
                },
                Some(b) => if b.id != generation {
                    refused(RejectView::SearchGenerationMismatch)
                } else {
                    match s.cluster {
                        None => refused(RejectView::ClusterNotInitialized),
                        Some(config) => if exists|partition: u16|
                            partition < config.p && !#[trigger] partition_ready(
                                s,
                                name,
                                b,
                                partition,
                            ) {
                            refused(RejectView::SearchGenerationNotReady)
                        } else {
                            activation(s, record, b)
                        },
                    }
                },
            }
        },
    }
}

/// The activation itself.
pub open spec fn activation(s: MetaView, record: RecordView, building: GenerationView) -> Decision {
    if record.active matches Some(a) && !record.retiring.contains(a.id) && record.retiring.len()
        >= SEARCH_MAX_RETIRING_GENERATIONS {
        refused_invalid("too many retiring search generations; finalize one before activation"@)
    } else {
        let next = RecordView {
            active: Some(building),
            building: None,
            retiring: match record.active {
                Some(a) => with_id(record.retiring, a.id),
                None => record.retiring,
            },
            ..record
        };
        stored_with_deletes(next, claim_deletes(s.ready, record.name, building.id))
    }
}

/// Store a record and clear claims, unless the record itself is wrong.
pub open spec fn stored_with_deletes(record: RecordView, deletes: Seq<MutationView>) -> Decision {
    match record.defect() {
        Some(e) => refused_invalid(e.text()),
        None => Decision::Decided(
            ResultView::Applied,
            seq![MutationView::PutIndex { record }] + deletes,
        ),
    }
}

/// How many generations a drop adds to the retiring list.
pub open spec fn drop_additions(record: RecordView) -> nat {
    let a = if record.active matches Some(g) && !record.retiring.contains(g.id) {
        1nat
    } else {
        0
    };
    let b = if record.building matches Some(g) && !record.retiring.contains(g.id) {
        1nat
    } else {
        0
    };
    a + b
}

/// The retiring list after a drop: the active generation, then the building one.
pub open spec fn dropped_retiring(record: RecordView) -> Seq<u64> {
    let one = match record.active {
        Some(g) => with_id(record.retiring, g.id),
        None => record.retiring,
    };
    match record.building {
        Some(g) => with_id(one, g.id),
        None => one,
    }
}

/// Drop an index: its generations retire and the claims for the building one
/// are cleared.
pub open spec fn drop_search_index_decision(s: MetaView, name: Seq<char>) -> Decision {
    match s.index(name) {
        None => no_change(ResultView::NoOp),
        Some(record) => if record.defect() is Some {
            Decision::Failed(record.defect()->0)
        } else if record.active is None && record.building is None {
            no_change(ResultView::NoOp)
        } else if record.retiring.len() + drop_additions(record)
            > SEARCH_MAX_RETIRING_GENERATIONS {
            refused_invalid("too many retiring search generations; finalize one before dropping"@)
        } else {
            stored_with_deletes(
                RecordView {
                    active: None,
                    building: None,
                    retiring: dropped_retiring(record),
                    ..record
                },
                match record.building {
                    Some(b) => claim_deletes(s.ready, record.name, b.id),
                    None => Seq::empty(),
                },
            )
        },
    }
}

/// Forget a retired generation, and the index with its last one.
pub open spec fn finalize_search_drop_decision(
    s: MetaView,
    name: Seq<char>,
    generation: u64,
) -> Decision {
    match s.index(name) {
        None => no_change(ResultView::NoOp),
        Some(record) => if record.defect() is Some {
            Decision::Failed(record.defect()->0)
        } else {
            let left = without(record.retiring, generation);
            if left.len() == record.retiring.len() {
                no_change(ResultView::NoOp)
            } else if record.active is None && record.building is None && left.len() == 0 {
                applied(MutationView::DeleteIndex { name })
            } else {
                applied(MutationView::PutIndex { record: RecordView { retiring: left, ..record } })
            }
        },
    }
}

/// What a command decides.
pub open spec fn decide(s: StorageView, cmd: MetaCommandView, log_id: LogId) -> Decision {
    match cmd {
        MetaCommandView::ClusterInit { config, meta_voters } => cluster_init_decision(
            s,
            config,
            meta_voters,
            log_id,
        ),
        MetaCommandView::RegisterNode { node_id, control_addr, bulk_addr } => {
            register_node_decision(s.meta, node_id, control_addr, bulk_addr)
        },
        MetaCommandView::SeedPlacement { group, voters } => seed_placement_decision(
            s.meta,
            group,
            voters,
            log_id,
        ),
        MetaCommandView::SetNodeState { node_id, state, incarnation } => set_node_state_decision(
            s.meta,
            node_id,
            state,
            incarnation,
        ),
        MetaCommandView::CreatePlan { group, plan_id, target_voters } => create_plan_decision(
            s.meta,
            group,
            target_voters,
            log_id,
        ),
        MetaCommandView::MarkAborting { group, plan_id } => mark_aborting_decision(
            s.meta,
            group,
            plan_id,
        ),
        MetaCommandView::FinalizePlan { group, plan_id, observation } => finalize_plan_decision(
            s.meta,
            group,
            plan_id,
            observation,
            false,
        ),
        MetaCommandView::AbortReport { group, plan_id, observation } => finalize_plan_decision(
            s.meta,
            group,
            plan_id,
            observation,
            true,
        ),
        MetaCommandView::CreateSearchIndex { name, definition } => create_search_index_decision(
            s.meta,
            name,
            definition,
            LEGACY_SEARCH_ENGINE_REVISION,
            log_id,
            false,
        ),
        MetaCommandView::CreateSearchIndexGeneration { name, definition } => {
            create_search_index_decision(
                s.meta,
                name,
                definition,
                LEGACY_SEARCH_ENGINE_REVISION,
                log_id,
                true,
            )
        },
        MetaCommandView::ReportSearchIndexReady { name, observation } => {
            report_search_ready_decision(s.meta, name, observation)
        },
        MetaCommandView::ActivateSearchIndexGeneration { name, generation } => {
            activate_search_generation_decision(s.meta, name, generation)
        },
        MetaCommandView::DropSearchIndex { name } => drop_search_index_decision(s.meta, name),
        MetaCommandView::FinalizeSearchIndexDrop { name, generation } => {
            finalize_search_drop_decision(s.meta, name, generation)
        },
        MetaCommandView::CreateSearchIndexWithRevision { name, definition, engine_revision } => {
            create_search_index_decision(
                s.meta,
                name,
                definition,
                engine_revision,
                log_id,
                false,
            )
        },
        MetaCommandView::CreateSearchIndexGenerationWithRevision {
            name,
            definition,
            engine_revision,
        } => create_search_index_decision(
            s.meta,
            name,
            definition,
            engine_revision,
            log_id,
            true,
        ),
    }
}

/// The records after a command was applied at a log position.
pub open spec fn applied_state(s: StorageView, decision: Decision, log_id: LogId) -> StorageView {
    match decision {
        Decision::Decided(_, muts) => StorageView {
            meta: MetaView { last_applied: Some(log_id), ..after_all(s.meta, muts) },
            ..s
        },
        Decision::Failed(_) => s,
    }
}

// -- the executable state machine -------------------------------------------

fn unchanged(result: MetaApplyResult) -> (e: Evaluation)
    ensures
        decision_of(e) == no_change(result@),
{
    let muts: Vec<MetaMutation> = Vec::new();
    assert(mutation_views(muts@) =~= Seq::<MutationView>::empty());
    Ok((result, muts))
}

fn reject(r: MetaReject) -> (e: Evaluation)
    ensures
        decision_of(e) == refused(r@),
{
    unchanged(MetaApplyResult::Rejected(r))
}

fn invalid(msg: &str) -> (e: Evaluation)
    ensures
        decision_of(e) == refused_invalid(msg@),
{
    reject(MetaReject::InvalidConfig(msg.to_owned()))
}

fn invalid_owned(msg: String) -> (e: Evaluation)
    ensures
        decision_of(e) == refused_invalid(msg@),
{
    reject(MetaReject::InvalidConfig(msg))
}

fn illegal(msg: &str) -> (e: Evaluation)
    ensures
        decision_of(e) == refused_illegal(msg@),
{
    reject(MetaReject::IllegalVoterChange(msg.to_owned()))
}

fn change(m: MetaMutation) -> (e: Evaluation)
    ensures
        decision_of(e) == applied(m@),
{
    let mut muts: Vec<MetaMutation> = Vec::new();
    muts.push(m);
    assert(mutation_views(muts@) =~= seq![m@]);
    Ok((MetaApplyResult::Applied, muts))
}

/// The length of an endpoint in bytes.
pub(crate) fn endpoint_bytes(addr: &String) -> (n: usize)
    ensures
        n == encode_utf8(addr@).len(),
{
    addr.as_str().as_bytes().len()
}

/// The meta group's decision procedure. It has no state of its own.
pub struct MetaStateMachine;

impl Default for MetaStateMachine {
    fn default() -> (m: MetaStateMachine) {
        MetaStateMachine::new()
    }
}

impl MetaStateMachine {
    pub fn new() -> (m: MetaStateMachine) {
        MetaStateMachine
    }

    fn is_active(&self, s: &MetaState, id: NodeId) -> (yes: bool)
        ensures
            yes == is_active(s@, id),
    {
        match s.node(id) {
            Some(e) => e.state == NodeState::Active,
            None => false,
        }
    }

    fn eligible_count(&self, s: &MetaState) -> (n: usize)
        ensures
            n == active_count(s@.nodes),
    {
        let mut n: usize = 0;
        let mut i: usize = 0;
        proof {
            assert(s@.nodes.take(0) =~= Seq::<(NodeId, NodeEntryView)>::empty());
        }
        while i < s.nodes.len()
            invariant
                i <= s.nodes@.len(),
                n <= i,
                n == active_count(s@.nodes.take(i as int)),
            decreases s.nodes@.len() - i,
        {
            proof {
                assert(s@.nodes.take(i + 1).drop_last() =~= s@.nodes.take(i as int));
                assert(s@.nodes.take(i + 1).last() == s@.nodes[i as int]);
            }
            if s.nodes[i].state == NodeState::Active {
                n += 1;
            }
            i += 1;
        }
        proof {
            assert(s@.nodes.take(i as int) =~= s@.nodes);
        }
        n
    }

    /// Found the cluster.
    pub fn cluster_init(
        &self,
        s: &Storage,
        config: &ClusterConfig,
        meta_voters: &Vec<NodeId>,
        log_id: LogId,
    ) -> (e: Evaluation)
        ensures
            decision_of(e) == cluster_init_decision(s@, *config, meta_voters@, log_id),
    {
        if let Some(existing) = s.meta.cluster {
            let same_meta: bool = match s.meta.placement(GroupId::Meta) {
                Some(p) => same_members(&p.voters, meta_voters),
                None => false,
            };
            if existing == *config && same_meta {
                return unchanged(MetaApplyResult::NoOp);
            }
            return reject(MetaReject::ClusterConflict);
        }
        let identity: Identity = match s.identity {
            Some(identity) => identity,
            None => {
                return invalid("cluster init requires a bound storage identity");
            },
        };
        if config.cluster_id != identity.cluster_id {
            return invalid("cluster_id differs from the storage identity");
        }
        if config.protocol_version != PROTOCOL_VERSION {
            return invalid("unsupported protocol version");
        }
        if config.r < MIN_REPLICATION {
            return invalid("R below minimum");
        }
        if config.p == 0 {
            return invalid("P must be non-zero");
        }
        match validate_routing_shape(config.p, config.r) {
            Ok(_) => {},
            Err(error) => {
                return invalid_owned(error.to_text());
            },
        }
        let voters = rising_ids(meta_voters);
        if voters.len() != meta_voters.len() {
            return invalid("duplicate meta voter");
        }
        if voters.len() < MIN_META_VOTERS || voters.len() % 2 == 0 {
            return invalid("meta voters must be an odd set of >= 3");
        }
        if voters.len() > MAX_CLUSTER_NODES {
            return invalid("meta voter set exceeds the cluster node limit");
        }
        let mut muts: Vec<MetaMutation> = Vec::new();
        muts.push(MetaMutation::PutCluster { config: *config });
        muts.push(
            MetaMutation::PutPlacement {
                group: GroupId::Meta,
                placement: Placement { voters, voters_log_id: log_id, move_plan: None },
            },
        );
        proof {
            assert(mutation_views(muts@) =~= seq![
                MutationView::PutCluster { config: *config },
                MutationView::PutPlacement {
                    group: GroupId::Meta,
                    placement: PlacementView {
                        voters: rising_members(meta_voters@.to_set()),
                        voters_log_id: log_id,
                        move_plan: None,
                    },
                },
            ]);
        }
        Ok((MetaApplyResult::Applied, muts))
    }

    fn endpoint_taken(
        &self,
        s: &MetaState,
        node_id: NodeId,
        control_addr: &String,
        bulk_addr: &String,
    ) -> (yes: bool)
        ensures
            yes == endpoint_taken(s@, node_id, control_addr@, bulk_addr@),
    {
        let mut i: usize = 0;
        while i < s.nodes.len()
            invariant
                i <= s.nodes@.len(),
                forall|j: int|
                    0 <= j < i ==> !endpoint_clash(
                        #[trigger] s@.nodes[j].1,
                        node_id,
                        control_addr@,
                        bulk_addr@,
                    ),
            decreases s.nodes@.len() - i,
        {
            let other = &s.nodes[i];
            assert(s@.nodes[i as int].1 == other@);
            if other.node_id != node_id && (other.control_addr == *control_addr || other.bulk_addr
                == *control_addr || other.control_addr == *bulk_addr || other.bulk_addr
                == *bulk_addr) {
                return true;
            }
            i += 1;
        }
        false
    }

    /// Register a node, or take it back in.
    pub fn register_node(
        &self,
        s: &Storage,
        node_id: NodeId,
        control_addr: &String,
        bulk_addr: &String,
    ) -> (e: Evaluation)
        ensures
            decision_of(e) == register_node_decision(s@.meta, node_id, control_addr@, bulk_addr@),
    {
        if s.meta.cluster.is_none() {
            return reject(MetaReject::ClusterNotInitialized);
        }
        if node_id == 0 {
            return invalid("node_id must be non-zero");
        }
        if control_addr.as_str().is_empty() || bulk_addr.as_str().is_empty() {
            return invalid("node addresses must be non-empty");
        }
        if endpoint_bytes(control_addr) > MAX_ENDPOINT_BYTES || endpoint_bytes(bulk_addr)
            > MAX_ENDPOINT_BYTES {
            let mut text = prefixed(
                "node addresses must be <= ",
                to_decimal(MAX_ENDPOINT_BYTES as u128).as_str(),
            );
            text.append(" bytes");
            return invalid_owned(text);
        }
        if *control_addr == *bulk_addr {
            return invalid("control_addr and bulk_addr must differ");
        }
        if self.endpoint_taken(&s.meta, node_id, control_addr, bulk_addr) {
            return invalid("node addresses are already registered to another node");
        }
        let known = s.meta.node(node_id);
        if s.meta.nodes.len() >= MAX_CLUSTER_NODES && known.is_none() {
            return invalid_owned(
                prefixed(
                    "cluster node count must be <= ",
                    to_decimal(MAX_CLUSTER_NODES as u128).as_str(),
                ),
            );
        }
        let incarnation: u64 = match known {
            Some(e) => {
                if e.control_addr == *control_addr && e.bulk_addr == *bulk_addr && e.state
                    != NodeState::Down {
                    return unchanged(MetaApplyResult::NoOp);
                }
                match e.incarnation.checked_add(1) {
                    Some(next) => next,
                    None => {
                        return invalid("node incarnation exhausted");
                    },
                }
            },
            None => 1,
        };
        change(
            MetaMutation::PutNode {
                entry: NodeDirectoryEntry {
                    node_id,
                    control_addr: control_addr.clone(),
                    bulk_addr: bulk_addr.clone(),
                    state: NodeState::Active,
                    incarnation,
                },
            },
        )
    }

    /// Change a node's state.
    pub fn set_node_state(
        &self,
        s: &Storage,
        node_id: NodeId,
        state: NodeState,
        incarnation: u64,
    ) -> (e: Evaluation)
        ensures
            decision_of(e) == set_node_state_decision(s@.meta, node_id, state, incarnation),
    {
        let entry = match s.meta.node(node_id) {
            Some(entry) => entry,
            None => {
                return reject(MetaReject::UnknownNode);
            },
        };
        if incarnation < entry.incarnation {
            return reject(MetaReject::StaleIncarnation);
        }
        if entry.state == NodeState::Down && state != NodeState::Down && incarnation
            == entry.incarnation {
            return reject(MetaReject::StaleIncarnation);
        }
        if entry.state == state && entry.incarnation == incarnation {
            return unchanged(MetaApplyResult::NoOp);
        }
        let mut next = entry.duplicate();
        next.state = state;
        next.incarnation = incarnation;
        change(MetaMutation::PutNode { entry: next })
    }

    fn first_inactive(&self, s: &MetaState, ids: &[NodeId]) -> (found: bool)
        ensures
            found == exists|i: int| 0 <= i < ids@.len() && !is_active(s@, #[trigger] ids@[i]),
    {
        let mut i: usize = 0;
        while i < ids.len()
            invariant
                i <= ids@.len(),
                forall|j: int| 0 <= j < i ==> is_active(s@, #[trigger] ids@[j]),
            decreases ids@.len() - i,
        {
            if !self.is_active(s, ids[i]) {
                return true;
            }
            i += 1;
        }
        false
    }

    /// Place a data group for the first time.
    pub fn seed_placement(
        &self,
        s: &Storage,
        group: GroupId,
        voters: &Vec<NodeId>,
        log_id: LogId,
    ) -> (e: Evaluation)
        ensures
            decision_of(e) == seed_placement_decision(s@.meta, group, voters@, log_id),
    {
        let config: ClusterConfig = match s.meta.cluster {
            Some(config) => config,
            None => {
                return reject(MetaReject::ClusterNotInitialized);
            },
        };
        let partition: u16 = match group {
            GroupId::Meta => {
                return reject(MetaReject::SeedMetaForbidden);
            },
            GroupId::Data(partition) => partition,
        };
        if partition >= config.p {
            return illegal("partition is outside the configured range");
        }
        let list = rising_ids(voters);
        if list.len() != voters.len() {
            return illegal("duplicate voter");
        }
        if list.len() != config.r as usize {
            return illegal("initial voters must number exactly R");
        }
        if self.first_inactive(&s.meta, voters) {
            return reject(MetaReject::IneligibleTarget);
        }
        match s.meta.placement(group) {
            Some(existing) => {
                if existing.move_plan.is_none() && same_members(&existing.voters, voters) {
                    unchanged(MetaApplyResult::NoOp)
                } else {
                    reject(MetaReject::PlacementConflict)
                }
            },
            None => change(
                MetaMutation::PutPlacement {
                    group,
                    placement: Placement { voters: list, voters_log_id: log_id, move_plan: None },
                },
            ),
        }
    }

    /// Start a move of one voter.
    pub fn create_plan(
        &self,
        s: &Storage,
        group: GroupId,
        target_voters: &Vec<NodeId>,
        log_id: LogId,
    ) -> (e: Evaluation)
        ensures
            decision_of(e) == create_plan_decision(s@.meta, group, target_voters@, log_id),
    {
        let config: ClusterConfig = match s.meta.cluster {
            Some(config) => config,
            None => {
                return reject(MetaReject::ClusterNotInitialized);
            },
        };
        let placement = match s.meta.placement(group) {
            Some(placement) => placement,
            None => {
                return reject(MetaReject::NoPlacement);
            },
        };
        if placement.move_plan.is_some() {
            return reject(MetaReject::PlanExists);
        }
        let current = rising_ids(&placement.voters);
        let target = rising_ids(target_voters);
        if target.len() != target_voters.len() {
            return illegal("duplicate voter");
        }
        let added = difference(&target, &current);
        let removed = difference(&current, &target);
        match group {
            GroupId::Data(_) => {
                if target.len() != config.r as usize {
                    return illegal("data target must have exactly R voters");
                }
                if added.len() != 1 || removed.len() != 1 {
                    return illegal("data move must change exactly one voter");
                }
                if self.eligible_count(&s.meta) < config.r as usize {
                    return reject(MetaReject::IneligibleTarget);
                }
            },
            GroupId::Meta => {
                if target.len() < MIN_META_VOTERS {
                    return illegal("meta move must not leave < 3 voters");
                }
                let replacement: bool = added.len() == 1 && removed.len() == 1 && target.len()
                    == current.len();
                let removal: bool = added.len() == 0 && removed.len() == 1 && target.len()
                    < current.len() && current.len() - target.len() == 1;
                if !(replacement || removal) {
                    return illegal("meta move must be single-voter replacement or removal");
                }
            },
        }
        let ineligible: bool = self.first_inactive(&s.meta, &added);
        proof {
            let fresh = target_voters@.to_set().difference(placement.voters@.to_set());
            assert forall|v: NodeId|
                (target_voters@.contains(v) && !placement.voters@.contains(v)) == added@.contains(
                    v,
                ) by {
                assert(added@.to_set().contains(v) == fresh.contains(v));
            }
            if ineligible {
                let i = choose|i: int|
                    0 <= i < added@.len() && !is_active(s@.meta, #[trigger] added@[i]);
                assert(added@.contains(added@[i]));
                assert(!is_active(s@.meta, added@[i]));
            } else {
                assert forall|v: NodeId|
                    target_voters@.contains(v) && !placement.voters@.contains(
                        v,
                    ) implies #[trigger] is_active(s@.meta, v) by {
                    assert(added@.contains(v));
                    let i = added@.index_of(v);
                    assert(added@[i] == v);
                }
            }
        }
        if ineligible {
            return reject(MetaReject::IneligibleTarget);
        }
        change(
            MetaMutation::PutPlacement {
                group,
                placement: Placement {
                    voters: placement.voters.clone(),
                    voters_log_id: placement.voters_log_id,
                    move_plan: Some(
                        MovePlan {
                            plan_id: log_id.index,
                            target_voters: target,
                            aborting: false,
                        },
                    ),
                },
            },
        )
    }

    /// Mark a plan as aborting.
    pub fn mark_aborting(&self, s: &Storage, group: GroupId, plan_id: u64) -> (e: Evaluation)
        ensures
            decision_of(e) == mark_aborting_decision(s@.meta, group, plan_id),
    {
        let placement = match s.meta.placement(group) {
            Some(placement) => placement,
            None => {
                return reject(MetaReject::NoPlan);
            },
        };
        match &placement.move_plan {
            None => reject(MetaReject::NoPlan),
            Some(plan) => {
                if plan.plan_id != plan_id {
                    return reject(MetaReject::PlanIdMismatch);
                }
                if plan.aborting {
                    return unchanged(MetaApplyResult::NoOp);
                }
                change(
                    MetaMutation::PutPlacement {
                        group,
                        placement: Placement {
                            voters: placement.voters.clone(),
                            voters_log_id: placement.voters_log_id,
                            move_plan: Some(
                                MovePlan {
                                    plan_id: plan.plan_id,
                                    target_voters: plan.target_voters.clone(),
                                    aborting: true,
                                },
                            ),
                        },
                    },
                )
            },
        }
    }

    /// Resolve a plan: a finalize commits the target voters, an abort report
    /// clears a plan already marked aborting.
    pub fn finalize_plan(
        &self,
        s: &Storage,
        group: GroupId,
        plan_id: u64,
        observation: &DataConfigObservation,
        is_abort: bool,
    ) -> (e: Evaluation)
        ensures
            decision_of(e) == finalize_plan_decision(
                s@.meta,
                group,
                plan_id,
                observation@,
                is_abort,
            ),
    {
        let placement = match s.meta.placement(group) {
            Some(placement) => placement,
            None => {
                return reject(MetaReject::NoPlan);
            },
        };
        let plan = match &placement.move_plan {
            Some(plan) => plan,
            None => {
                return reject(MetaReject::NoPlan);
            },
        };
        if plan.plan_id != plan_id {
            return reject(MetaReject::PlanIdMismatch);
        }
        if observation.group != group || observation.plan_id != plan_id {
            return reject(MetaReject::ObservationMismatch);
        }
        if is_abort && !plan.aborting {
            return reject(MetaReject::NotAborting);
        }
        if !is_abort && plan.aborting {
            return reject(MetaReject::PlanAborting);
        }
        let voters = if is_abort && same_members(&observation.voter_set, &placement.voters) {
            sort_ids(&placement.voters)
        } else if same_members(&observation.voter_set, &plan.target_voters) {
            sort_ids(&plan.target_voters)
        } else {
            return reject(MetaReject::ObservationMismatch);
        };
        change(
            MetaMutation::PutPlacement {
                group,
                placement: Placement {
                    voters,
                    voters_log_id: observation.config_log_id,
                    move_plan: None,
                },
            },
        )
    }
}

fn same_build_exec(a: &SearchIndexGeneration, b: &SearchIndexGeneration) -> (same: bool)
    ensures
        same == same_build(a@, b@),
{
    same_hash(&a.definition_hash, &b.definition_hash) && a.engine_revision == b.engine_revision
}

fn store_record(record: SearchIndexRecord) -> (e: Evaluation)
    ensures
        decision_of(e) == stored(record@),
{
    match record.validate() {
        Ok(_) => change(MetaMutation::PutIndex { record }),
        Err(error) => invalid_owned(error.to_text()),
    }
}

fn store_record_with(record: SearchIndexRecord, deletes: Vec<MetaMutation>) -> (e: Evaluation)
    ensures
        decision_of(e) == stored_with_deletes(record@, mutation_views(deletes@)),
{
    match record.validate() {
        Ok(_) => {
            let mut muts = deletes;
            muts.insert(0, MetaMutation::PutIndex { record });
            assert(mutation_views(muts@) =~= seq![MutationView::PutIndex { record: record@ }]
                + mutation_views(deletes@));
            Ok((MetaApplyResult::Applied, muts))
        },
        Err(error) => invalid_owned(error.to_text()),
    }
}

fn push_id(list: &mut Vec<u64>, id: u64)
    ensures
        final(list)@ == with_id(old(list)@, id),
{
    if !holds(list, id) {
        list.push(id);
    }
}

fn deletes_under(s: &MetaState, name: &String, generation: u64) -> (out: Vec<MetaMutation>)
    ensures
        mutation_views(out@) == claim_deletes(s@.ready, name@, generation),
{
    let mut out: Vec<MetaMutation> = Vec::new();
    let mut i: usize = 0;
    let ghost ready = s@.ready;
    proof {
        assert(ready.take(0) =~= Seq::<(ReadyKey, SearchIndexReady)>::empty());
        assert(mutation_views(out@) =~= claim_deletes(ready.take(0), name@, generation));
    }
    while i < s.ready.len()
        invariant
            i <= s.ready@.len(),
            ready == s@.ready,
            mutation_views(out@) == claim_deletes(ready.take(i as int), name@, generation),
        decreases s.ready@.len() - i,
    {
        proof {
            assert(ready.take(i + 1).drop_last() =~= ready.take(i as int));
            assert(ready.take(i + 1).last() == ready[i as int]);
        }
        let entry = &s.ready[i];
        if entry.0 == *name && entry.1.generation == generation {
            let ghost before = mutation_views(out@);
            out.push(
                MetaMutation::DeleteReady {
                    name: entry.0.clone(),
                    generation: entry.1.generation,
                    group: entry.1.group,
                    node_id: entry.1.node_id,
                },
            );
            proof {
                assert(mutation_views(out@) =~= before.push(
                    MutationView::DeleteReady { key: ready[i as int].0 },
                ));
            }
        }
        i += 1;
    }
    proof {
        assert(ready.take(i as int) =~= ready);
    }
    out
}

impl MetaStateMachine {
    /// Create an index, or start the next generation of an existing one.
    pub fn create_search_index(
        &self,
        s: &Storage,
        name: &String,
        definition: &SearchIndexDefinition,
        engine_revision: u32,
        log_id: LogId,
        update: bool,
    ) -> (e: Evaluation)
        ensures
            decision_of(e) == create_search_index_decision(
                s@.meta,
                name@,
                definition@,
                engine_revision,
                log_id,
                update,
            ),
    {
        if s.meta.cluster.is_none() {
            return reject(MetaReject::ClusterNotInitialized);
        }
        match validate_index_name(name) {
            Ok(_) => {},
            Err(error) => {
                return invalid_owned(error.to_text());
            },
        }
        let generation = match SearchIndexGeneration::with_revision(
            log_id.index,
            engine_revision,
            definition.duplicate(),
        ) {
            Ok(generation) => generation,
            Err(error) => {
                return invalid_owned(error.to_text());
            },
        };
        let existing = match s.meta.index(name) {
            None => {
                if update {
                    return reject(MetaReject::SearchIndexNotFound);
                }
                if s.meta.indexes.len() >= SEARCH_MAX_INDEXES {
                    return invalid("search catalog has reached its maximum index count");
                }
                let retiring: Vec<u64> = Vec::new();
                let record = SearchIndexRecord {
                    name: name.clone(),
                    active: None,
                    building: Some(generation),
                    retiring,
                };
                return store_record(record);
            },
            Some(existing) => existing,
        };
        match existing.validate() {
            Ok(_) => {},
            Err(error) => {
                return Err(error);
            },
        }
        if !update {
            let same: bool = match &existing.building {
                Some(building) => existing.active.is_none() && same_build_exec(
                    building,
                    &generation,
                ),
                None => false,
            };
            if same {
                return unchanged(MetaApplyResult::NoOp);
            }
            return reject(MetaReject::SearchIndexExists);
        }
        if let Some(building) = &existing.building {
            if same_build_exec(building, &generation) {
                return unchanged(MetaApplyResult::NoOp);
            }
            return reject(MetaReject::SearchGenerationExists);
        }
        if existing.active.is_none() {
            return reject(MetaReject::SearchIndexNotFound);
        }
        if existing.retiring.len() >= SEARCH_MAX_RETIRING_GENERATIONS {
            return invalid("too many retiring search generations; finalize one before updating");
        }
        let mut record = existing.duplicate();
        record.building = Some(generation);
        store_record(record)
    }

    /// Accept a replica's readiness claim.
    pub fn report_search_ready(
        &self,
        s: &Storage,
        name: &String,
        observation: &SearchIndexReady,
    ) -> (e: Evaluation)
        ensures
            decision_of(e) == report_search_ready_decision(s@.meta, name@, *observation),
    {
        let record = match s.meta.index(name) {
            Some(record) => record,
            None => {
                return reject(MetaReject::SearchIndexNotFound);
            },
        };
        match record.validate() {
            Ok(_) => {},
            Err(error) => {
                return Err(error);
            },
        }
        let building = match &record.building {
            Some(building) => building,
            None => {
                return reject(MetaReject::SearchGenerationMismatch);
            },
        };
        if observation.generation != building.id || !same_hash(
            &observation.definition_hash,
            &building.definition_hash,
        ) || observation.engine_revision != building.engine_revision {
            return reject(MetaReject::SearchGenerationMismatch);
        }
        let partition: u16 = match observation.group {
            GroupId::Data(partition) => partition,
            GroupId::Meta => {
                return reject(MetaReject::ObservationMismatch);
            },
        };
        let config: ClusterConfig = match s.meta.cluster {
            Some(config) => config,
            None => {
                return reject(MetaReject::ClusterNotInitialized);
            },
        };
        if partition >= config.p || observation.projection_epoch == 0 {
            return reject(MetaReject::ObservationMismatch);
        }
        let placement = match s.meta.placement(observation.group) {
            Some(placement) => placement,
            None => {
                return reject(MetaReject::NoPlacement);
            },
        };
        if placement.move_plan.is_some() || placement.voters_log_id != observation.voters_log_id
            || !holds(&placement.voters, observation.node_id) {
            return reject(MetaReject::ObservationMismatch);
        }
        match s.meta.claim(
            name,
            observation.generation,
            observation.group,
            observation.node_id,
        ) {
            Some(previous) => {
                if previous.same(observation) {
                    return unchanged(MetaApplyResult::NoOp);
                }
                if observation.projection_epoch < previous.projection_epoch || (
                observation.projection_epoch == previous.projection_epoch
                    && observation.source_log_id.index < previous.source_log_id.index) {
                    return reject(MetaReject::ObservationMismatch);
                }
            },
            None => {},
        }
        change(MetaMutation::PutReady { name: name.clone(), claim: *observation })
    }

    fn replica_ready(
        &self,
        s: &MetaState,
        name: &String,
        building: &SearchIndexGeneration,
        group: GroupId,
        node_id: NodeId,
        voters_log_id: LogId,
    ) -> (yes: bool)
        ensures
            yes == replica_ready(s@.ready, name@, building@, group, node_id, voters_log_id),
    {
        let mut i: usize = 0;
        while i < s.ready.len()
            invariant
                i <= s.ready@.len(),
                forall|j: int|
                    0 <= j < i ==> !(claim_under(#[trigger] s@.ready[j], name@, building@.id)
                        && vouches(s@.ready[j].1, building@, group, node_id, voters_log_id)),
            decreases s.ready@.len() - i,
        {
            let entry = &s.ready[i];
            let ready = &entry.1;
            assert(s@.ready[i as int] == (ready_key(entry.0@, entry.1), entry.1));
            if entry.0 == *name && ready.generation == building.id && ready.group == group
                && ready.node_id == node_id && ready.voters_log_id == voters_log_id && same_hash(
                &ready.definition_hash,
                &building.definition_hash,
            ) && ready.engine_revision == building.engine_revision {
                return true;
            }
            i += 1;
        }
        false
    }

    fn partition_ready(
        &self,
        s: &MetaState,
        name: &String,
        building: &SearchIndexGeneration,
        partition: u16,
    ) -> (yes: bool)
        ensures
            yes == partition_ready(s@, name@, building@, partition),
    {
        let group = GroupId::Data(partition);
        let placement = match s.placement(group) {
            Some(placement) => placement,
            None => {
                return false;
            },
        };
        if placement.move_plan.is_some() {
            return false;
        }
        let mut i: usize = 0;
        while i < placement.voters.len()
            invariant
                i <= placement.voters@.len(),
                group == GroupId::Data(partition),
                s@.placement(group) == Some(placement@),
                forall|j: int|
                    0 <= j < i ==> replica_ready(
                        s@.ready,
                        name@,
                        building@,
                        group,
                        #[trigger] placement.voters@[j],
                        placement.voters_log_id,
                    ),
            decreases placement.voters@.len() - i,
        {
            if !self.replica_ready(
                s,
                name,
                building,
                group,
                placement.voters[i],
                placement.voters_log_id,
            ) {
                proof {
                    let p = placement@;
                    assert(!replica_ready(
                        s@.ready,
                        name@,
                        building@,
                        group,
                        p.voters[i as int],
                        p.voters_log_id,
                    ));
                }
                return false;
            }
            i += 1;
        }
        true
    }

    /// Make the building generation the active one.
    pub fn activate_search_generation(
        &self,
        s: &Storage,
        name: &String,
        generation: u64,
    ) -> (e: Evaluation)
        ensures
            decision_of(e) == activate_search_generation_decision(s@.meta, name@, generation),
    {
        let record = match s.meta.index(name) {
            Some(record) => record,
            None => {
                return reject(MetaReject::SearchIndexNotFound);
            },
        };
        match record.validate() {
            Ok(_) => {},
            Err(error) => {
                return Err(error);
            },
        }
        let building = match &record.building {
            Some(building) => building,
            None => {
                let already: bool = match &record.active {
                    Some(active) => active.id == generation,
                    None => false,
                };
                if already {
                    return unchanged(MetaApplyResult::NoOp);
                }
                return reject(MetaReject::SearchGenerationMismatch);
            },
        };
        if building.id != generation {
            return reject(MetaReject::SearchGenerationMismatch);
        }
        let config: ClusterConfig = match s.meta.cluster {
            Some(config) => config,
            None => {
                return reject(MetaReject::ClusterNotInitialized);
            },
        };
        let mut partition: u16 = 0;
        while partition < config.p
            invariant
                partition <= config.p,
                s@.meta.cluster == Some(config),
                s@.meta.index(name@) == Some(record@),
                record@.defect() is None,
                record@.building == Some(building@),
                building@.id == generation,
                forall|q: u16|
                    q < partition ==> #[trigger] partition_ready(s@.meta, name@, building@, q),
            decreases config.p - partition,
        {
            if !self.partition_ready(&s.meta, name, building, partition) {
                proof {
                    assert(!partition_ready(s@.meta, name@, building@, partition));
                    assert(partition < config.p);
                }
                return reject(MetaReject::SearchGenerationNotReady);
            }
            partition += 1;
        }
        if let Some(previous) = &record.active {
            if !holds(&record.retiring, previous.id) && record.retiring.len()
                >= SEARCH_MAX_RETIRING_GENERATIONS {
                return invalid(
                    "too many retiring search generations; finalize one before activation",
                );
            }
        }
        let mut retiring = record.retiring.clone();
        if let Some(previous) = &record.active {
            push_id(&mut retiring, previous.id);
        }
        let next = SearchIndexRecord {
            name: record.name.clone(),
            active: Some(building.duplicate()),
            building: None,
            retiring,
        };
        let deletes = deletes_under(&s.meta, &record.name, building.id);
        store_record_with(next, deletes)
    }

    /// Drop an index.
    pub fn drop_search_index(&self, s: &Storage, name: &String) -> (e: Evaluation)
        ensures
            decision_of(e) == drop_search_index_decision(s@.meta, name@),
    {
        let record = match s.meta.index(name) {
            Some(record) => record,
            None => {
                return unchanged(MetaApplyResult::NoOp);
            },
        };
        match record.validate() {
            Ok(_) => {},
            Err(error) => {
                return Err(error);
            },
        }
        if record.active.is_none() && record.building.is_none() {
            return unchanged(MetaApplyResult::NoOp);
        }
        let mut additions: usize = 0;
        if let Some(g) = &record.active {
            if !holds(&record.retiring, g.id) {
                additions += 1;
            }
        }
        if let Some(g) = &record.building {
            if !holds(&record.retiring, g.id) {
                additions += 1;
            }
        }
        if record.retiring.len() > SEARCH_MAX_RETIRING_GENERATIONS - additions {
            return invalid("too many retiring search generations; finalize one before dropping");
        }
        let mut retiring = record.retiring.clone();
        if let Some(g) = &record.active {
            push_id(&mut retiring, g.id);
        }
        let deletes: Vec<MetaMutation> = match &record.building {
            Some(g) => {
                push_id(&mut retiring, g.id);
                deletes_under(&s.meta, &record.name, g.id)
            },
            None => {
                let none: Vec<MetaMutation> = Vec::new();
                assert(mutation_views(none@) =~= Seq::<MutationView>::empty());
                none
            },
        };
        let next = SearchIndexRecord {
            name: record.name.clone(),
            active: None,
            building: None,
            retiring,
        };
        store_record_with(next, deletes)
    }

    /// Forget a retired generation.
    pub fn finalize_search_drop(&self, s: &Storage, name: &String, generation: u64) -> (e:
        Evaluation)
        ensures
            decision_of(e) == finalize_search_drop_decision(s@.meta, name@, generation),
    {
        let record = match s.meta.index(name) {
            Some(record) => record,
            None => {
                return unchanged(MetaApplyResult::NoOp);
            },
        };
        match record.validate() {
            Ok(_) => {},
            Err(error) => {
                return Err(error);
            },
        }
        let left = without_id(&record.retiring, generation);
        if left.len() == record.retiring.len() {
            return unchanged(MetaApplyResult::NoOp);
        }
        if record.active.is_none() && record.building.is_none() && left.is_empty() {
            return change(MetaMutation::DeleteIndex { name: name.clone() });
        }
        let mut next = record.duplicate();
        next.retiring = left;
        change(MetaMutation::PutIndex { record: next })
    }

    /// Decide a command, changing nothing.
    pub fn evaluate(&self, s: &Storage, cmd: &MetaCommand, log_id: LogId) -> (e: Evaluation)
        ensures
            decision_of(e) == decide(s@, cmd@, log_id),
    {
        match cmd {
            MetaCommand::ClusterInit { config, meta_voters } => self.cluster_init(
                s,
                config,
                meta_voters,
                log_id,
            ),
            MetaCommand::RegisterNode { node_id, control_addr, bulk_addr } => self.register_node(
                s,
                *node_id,
                control_addr,
                bulk_addr,
            ),
            MetaCommand::SeedPlacement { group, voters } => self.seed_placement(
                s,
                *group,
                voters,
                log_id,
            ),
            MetaCommand::SetNodeState { node_id, state, incarnation } => self.set_node_state(
                s,
                *node_id,
                *state,
                *incarnation,
            ),
            MetaCommand::CreatePlan { group, plan_id: _, target_voters } => self.create_plan(
                s,
                *group,
                target_voters,
                log_id,
            ),
            MetaCommand::MarkAborting { group, plan_id } => self.mark_aborting(
                s,
                *group,
                *plan_id,
            ),
            MetaCommand::FinalizePlan { group, plan_id, observation } => self.finalize_plan(
                s,
                *group,
                *plan_id,
                observation,
                false,
            ),
            MetaCommand::AbortReport { group, plan_id, observation } => self.finalize_plan(
                s,
                *group,
                *plan_id,
                observation,
                true,
            ),
            MetaCommand::CreateSearchIndex { name, definition } => self.create_search_index(
                s,
                name,
                definition,
                LEGACY_SEARCH_ENGINE_REVISION,
                log_id,
                false,
            ),
            MetaCommand::CreateSearchIndexGeneration { name, definition } => {
                self.create_search_index(
                    s,
                    name,
                    definition,
                    LEGACY_SEARCH_ENGINE_REVISION,
                    log_id,
                    true,
                )
            },
            MetaCommand::ReportSearchIndexReady { name, observation } => self.report_search_ready(
                s,
                name,
                observation,
            ),
            MetaCommand::ActivateSearchIndexGeneration { name, generation } => {
                self.activate_search_generation(s, name, *generation)
            },
            MetaCommand::DropSearchIndex { name } => self.drop_search_index(s, name),
            MetaCommand::FinalizeSearchIndexDrop { name, generation } => {
                self.finalize_search_drop(s, name, *generation)
            },
            MetaCommand::CreateSearchIndexWithRevision { name, definition, engine_revision } => {
                self.create_search_index(s, name, definition, *engine_revision, log_id, false)
            },
            MetaCommand::CreateSearchIndexGenerationWithRevision {
                name,
                definition,
                engine_revision,
            } => self.create_search_index(s, name, definition, *engine_revision, log_id, true),
        }
    }

    /// Decide a command and carry it out, advancing the applied position with
    /// it.
    pub fn apply(&self, storage: &mut Storage, cmd: &MetaCommand, log_id: LogId) -> (r: Result<
        MetaApplyResult,
        Error,
    >)
        ensures
            final(storage)@ == applied_state(
                old(storage)@,
                decide(old(storage)@, cmd@, log_id),
                log_id,
            ),
            match r {
                Ok(result) => decide(old(storage)@, cmd@, log_id) matches Decision::Decided(
                    view,
                    _,
                ) && view == result@,
                Err(e) => decide(old(storage)@, cmd@, log_id) == Decision::Failed(e@),
            },
    {
        let ghost before = storage@;
        match self.evaluate(storage, cmd, log_id) {
            Ok((result, muts)) => {
                storage.meta.mutate_all(muts);
                storage.meta.last_applied = Some(log_id);
                assert(storage@ =~= applied_state(before, decide(before, cmd@, log_id), log_id));
                Ok(result)
            },
            Err(error) => Err(error),
        }
    }
}

} // verus!
