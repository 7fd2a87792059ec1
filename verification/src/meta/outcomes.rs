//! What each meta command answers and leaves behind, read off the records before
//! and after it.
use crate::assoc::{lemma_del, lemma_put, lemma_put_ranked, lemma_slot, slot};
use crate::meta::laws::{
    lemma_after_append, lemma_after_one, lemma_applied_is, lemma_deletes_effect,
    lemma_deletes_frame,
};
use crate::meta::state::{after_all, MetaView, MutationView, ReadyKey};
use crate::meta::state_machine::{
    active_count, applied_state, claim_deletes, claim_under, decide, endpoint_clash, endpoint_taken,
    is_active, partition_ready, replica_ready, with_id, Decision, RejectView, ResultView,
};
use crate::search::{
    DefinitionView, GenerationView, RecordView, SearchIndexReady, SEARCH_MAX_INDEXES,
    SEARCH_MAX_NAME_BYTES, SEARCH_MAX_RETIRING_GENERATIONS,
};
use crate::sets::{lemma_sorted, lemma_sorted_distinct, rising, without};
use crate::storage::StorageView;
use crate::types::{
    ClusterConfig, GroupId, LogId, MetaCommandView, NodeEntryView, NodeId, NodeState,
    ObservationView, MAX_CLUSTER_NODES, MAX_ENDPOINT_BYTES, PROTOCOL_VERSION,
};
use vstd::prelude::*;
use vstd::utf8::encode_utf8;

verus! {

/// What a command committed at a log position answers, unless a corrupt record
/// prevents an answer.
pub open spec fn answer(s: StorageView, cmd: MetaCommandView, log_id: LogId) -> Option<ResultView> {
    match decide(s, cmd, log_id) {
        Decision::Decided(result, _) => Some(result),
        Decision::Failed(_) => None,
    }
}

/// The meta records after a command was committed at a log position.
pub open spec fn meta_after(s: StorageView, cmd: MetaCommandView, log_id: LogId) -> MetaView {
    applied_state(s, decide(s, cmd, log_id), log_id).meta
}

/// Every command that gets an answer moves the applied position to its own, and
/// touches neither the storage identity nor any group outside the meta records;
/// one that is refused or changes nothing leaves every record as it was.
pub proof fn law_answers_move_the_position(s: StorageView, cmd: MetaCommandView, log_id: LogId)
    ensures
        answer(s, cmd, log_id) is Some ==> meta_after(s, cmd, log_id).last_applied == Some(log_id),
        answer(s, cmd, log_id) is None ==> meta_after(s, cmd, log_id) == s.meta,
        applied_state(s, decide(s, cmd, log_id), log_id) == (StorageView {
            meta: meta_after(s, cmd, log_id),
            ..s
        }),
        answer(s, cmd, log_id) matches Some(r) && !(r is Applied) ==> meta_after(s, cmd, log_id)
            == (MetaView { last_applied: Some(log_id), ..s.meta }),
{
    if let Decision::Decided(r, muts) = decide(s, cmd, log_id) {
        if !(r is Applied) {
            assert(muts.len() == 0);
            assert(after_all(s.meta, muts) == s.meta);
        }
    }
}

// -- the directory -----------------------------------------------------------

/// A committed state change of a known node, at an incarnation that is not older
/// and that does not leave `Down` at the same one, gives the node's entry
/// exactly the state and the incarnation it names, whatever they are. The
/// node's addresses and every other record stay. It changes nothing only where
/// the entry had both already. Every other state change is refused: of an
/// unknown node as such, of a known one as stale.
pub proof fn law_state_changes_take_effect(
    s: StorageView,
    node_id: NodeId,
    state: NodeState,
    incarnation: u64,
    log_id: LogId,
)
    requires
        s.meta.well_formed(),
    ensures
        ({
            let cmd = MetaCommandView::SetNodeState { node_id, state, incarnation };
            let t = meta_after(s, cmd, log_id);
            match s.meta.node(node_id) {
                None => answer(s, cmd, log_id) == Some(
                    ResultView::Rejected(RejectView::UnknownNode),
                ),
                Some(e) => if incarnation < e.incarnation || (e.state == NodeState::Down && state
                    != NodeState::Down && incarnation == e.incarnation) {
                    answer(s, cmd, log_id) == Some(
                        ResultView::Rejected(RejectView::StaleIncarnation),
                    )
                } else {
                    &&& t.node(node_id) matches Some(f) && f.state == state && f.incarnation
                        == incarnation && f.node_id == e.node_id && f.control_addr
                        == e.control_addr && f.bulk_addr == e.bulk_addr
                    &&& forall|other: NodeId|
                        other != node_id ==> #[trigger] t.node(other) == s.meta.node(other)
                    &&& t == (MetaView {
                        nodes: t.nodes,
                        last_applied: Some(log_id),
                        ..s.meta
                    })
                    &&& answer(s, cmd, log_id) == Some(ResultView::NoOp) <==> (e.state == state
                        && e.incarnation == incarnation)
                    &&& answer(s, cmd, log_id) == Some(ResultView::Applied) <==> !(e.state == state
                        && e.incarnation == incarnation)
                },
            }
        }),
{
    let cmd = MetaCommandView::SetNodeState { node_id, state, incarnation };
    law_answers_move_the_position(s, cmd, log_id);
    if let Some(e) = s.meta.node(node_id) {
        lemma_slot(s.meta.nodes, node_id);
        if answer(s, cmd, log_id) == Some(ResultView::Applied) {
            let entry = NodeEntryView { state, incarnation, ..e };
            lemma_applied_is(s, MutationView::PutNode { entry }, log_id);
            lemma_put_ranked(s.meta.nodes, entry.node_id, entry);
        }
    }
}

/// A cluster is founded once, on the identity that the storage is bound to, with
/// at least three replicas per partition, at least one partition, and an odd set
/// of at least three distinct meta voters. Founding it again with the same
/// record and the same voters changes nothing; any other attempt is a conflict.
/// What it writes is the cluster record and the meta placement, at its own log
/// position.
pub proof fn law_cluster_is_founded_once(
    s: StorageView,
    config: ClusterConfig,
    meta_voters: Seq<NodeId>,
    log_id: LogId,
)
    ensures
        ({
            let cmd = MetaCommandView::ClusterInit { config, meta_voters };
            let t = meta_after(s, cmd, log_id);
            let sound = config.cluster_id == s.identity->0.cluster_id && s.identity is Some
                && config.protocol_version == PROTOCOL_VERSION && config.r >= 3 && config.p >= 1
                && meta_voters.no_duplicates() && meta_voters.len() >= 3 && meta_voters.len() % 2
                == 1 && meta_voters.len() <= MAX_CLUSTER_NODES;
            let same = s.meta.cluster == Some(config) && s.meta.placement(GroupId::Meta) is Some
                && forall|v: NodeId| #[trigger]
                s.meta.placement(GroupId::Meta)->0.voters.contains(v) <==> meta_voters.contains(v);
            &&& answer(s, cmd, log_id) == Some(ResultView::Applied) <==> s.meta.cluster is None
                && sound
            &&& answer(s, cmd, log_id) == Some(ResultView::NoOp) <==> same
            &&& answer(s, cmd, log_id) == Some(ResultView::Rejected(RejectView::ClusterConflict))
                <==> s.meta.cluster is Some && !same
            &&& (answer(s, cmd, log_id) matches Some(
                ResultView::Rejected(RejectView::InvalidConfig(_)),
            )) <==> s.meta.cluster is None && !sound
            &&& answer(s, cmd, log_id) == Some(ResultView::Applied) ==> {
                &&& t.cluster == Some(config)
                &&& t.placement(GroupId::Meta) matches Some(p) && p.voters_log_id == log_id
                    && p.move_plan is None && rising(p.voters) && p.voters.to_set()
                    == meta_voters.to_set()
                &&& forall|other: GroupId|
                    other != GroupId::Meta ==> #[trigger] t.placement(other) == s.meta.placement(
                        other,
                    )
                &&& t == (MetaView {
                    cluster: t.cluster,
                    placements: t.placements,
                    last_applied: Some(log_id),
                    ..s.meta
                })
            }
        }),
{
    let cmd = MetaCommandView::ClusterInit { config, meta_voters };
    law_answers_move_the_position(s, cmd, log_id);
    if let Some(p) = s.meta.placement(GroupId::Meta) {
        lemma_same_members(p.voters, meta_voters);
    }
    if answer(s, cmd, log_id) == Some(ResultView::Applied) {
        let muts = decide(s, cmd, log_id)->Decided_1;
        let a = muts[0];
        let b = muts[1];
        assert(muts =~= seq![a] + seq![b]);
        lemma_after_append(s.meta, seq![a], seq![b]);
        lemma_after_one(s.meta, a);
        lemma_after_one(a.after(s.meta), b);
        lemma_sorted_distinct(meta_voters);
        lemma_sorted(meta_voters);
        lemma_put(s.meta.placements, GroupId::Meta, b->PutPlacement_placement);
    }
}

/// Two lists have the same set of members exactly when each holds what the other
/// does.
proof fn lemma_same_members(a: Seq<u64>, b: Seq<u64>)
    ensures
        a.to_set() == b.to_set() <==> forall|v: u64| #[trigger] a.contains(v) <==> b.contains(v),
{
    if a.to_set() == b.to_set() {
        assert forall|v: u64| #[trigger] a.contains(v) <==> b.contains(v) by {
            assert(a.to_set().contains(v) == b.to_set().contains(v));
        }
    }
    if forall|v: u64| #[trigger] a.contains(v) <==> b.contains(v) {
        assert(a.to_set() =~= b.to_set());
    }
}

/// Whether an entry of the directory gives another node one of these endpoints,
/// on either lane.
pub open spec fn endpoint_held_elsewhere(
    s: MetaView,
    node_id: NodeId,
    control_addr: Seq<char>,
    bulk_addr: Seq<char>,
) -> bool {
    exists|i: int|
        {
            &&& 0 <= i < s.nodes.len()
            &&& (#[trigger] s.nodes[i]).1.node_id != node_id
            &&& {
                ||| s.nodes[i].1.control_addr == control_addr
                ||| s.nodes[i].1.control_addr == bulk_addr
                ||| s.nodes[i].1.bulk_addr == control_addr
                ||| s.nodes[i].1.bulk_addr == bulk_addr
            }
        }
}

/// A node is taken in at two distinct, non-empty endpoints that no other node
/// has, while the directory has room for it. A node that is not known starts
/// active at incarnation one. A known one that is down, or whose endpoints
/// change, becomes active at the next incarnation; else it stays as it is. No
/// other record changes.
pub proof fn law_registration_takes_effect(
    s: StorageView,
    node_id: NodeId,
    control_addr: Seq<char>,
    bulk_addr: Seq<char>,
    log_id: LogId,
)
    requires
        s.meta.well_formed(),
    ensures
        ({
            let cmd = MetaCommandView::RegisterNode { node_id, control_addr, bulk_addr };
            let t = meta_after(s, cmd, log_id);
            let known = s.meta.node(node_id);
            let admissible = node_id != 0 && control_addr.len() > 0 && bulk_addr.len() > 0
                && encode_utf8(control_addr).len() <= MAX_ENDPOINT_BYTES && encode_utf8(
                bulk_addr,
            ).len() <= MAX_ENDPOINT_BYTES && control_addr != bulk_addr && !endpoint_held_elsewhere(
                s.meta,
                node_id,
                control_addr,
                bulk_addr,
            ) && (known is Some || s.meta.nodes.len() < MAX_CLUSTER_NODES);
            let settled = known matches Some(e) && e.control_addr == control_addr && e.bulk_addr
                == bulk_addr && e.state != NodeState::Down;
            let exhausted = known matches Some(e) && e.incarnation == u64::MAX;
            &&& answer(s, cmd, log_id) == Some(
                ResultView::Rejected(RejectView::ClusterNotInitialized),
            ) <==> s.meta.cluster is None
            &&& answer(s, cmd, log_id) == Some(ResultView::NoOp) <==> s.meta.cluster is Some
                && admissible && settled
            &&& answer(s, cmd, log_id) == Some(ResultView::Applied) <==> s.meta.cluster is Some
                && admissible && !settled && !exhausted
            &&& (answer(s, cmd, log_id) matches Some(
                ResultView::Rejected(RejectView::InvalidConfig(_)),
            )) <==> s.meta.cluster is Some && (!admissible || (!settled && exhausted))
            &&& answer(s, cmd, log_id) == Some(ResultView::Applied) ==> {
                &&& t.node(node_id) matches Some(f) && f.node_id == node_id && f.control_addr
                    == control_addr && f.bulk_addr == bulk_addr && f.state == NodeState::Active
                    && f.incarnation == match known {
                    None => 1,
                    Some(e) => e.incarnation + 1,
                }
                &&& forall|other: NodeId|
                    other != node_id ==> #[trigger] t.node(other) == s.meta.node(other)
                &&& t == (MetaView { nodes: t.nodes, last_applied: Some(log_id), ..s.meta })
            }
        }),
{
    let cmd = MetaCommandView::RegisterNode { node_id, control_addr, bulk_addr };
    law_answers_move_the_position(s, cmd, log_id);
    lemma_endpoint_held(s.meta, node_id, control_addr, bulk_addr);
    if answer(s, cmd, log_id) == Some(ResultView::Applied) {
        let muts = decide(s, cmd, log_id)->Decided_1;
        let entry = muts[0]->PutNode_entry;
        assert(muts =~= seq![MutationView::PutNode { entry }]);
        lemma_applied_is(s, MutationView::PutNode { entry }, log_id);
        lemma_put_ranked(s.meta.nodes, entry.node_id, entry);
    }
}

proof fn lemma_endpoint_held(
    s: MetaView,
    node_id: NodeId,
    control_addr: Seq<char>,
    bulk_addr: Seq<char>,
)
    ensures
        endpoint_held_elsewhere(s, node_id, control_addr, bulk_addr) == endpoint_taken(
            s,
            node_id,
            control_addr,
            bulk_addr,
        ),
{
    if endpoint_held_elsewhere(s, node_id, control_addr, bulk_addr) {
        let i = choose|i: int|
            {
                &&& 0 <= i < s.nodes.len()
                &&& (#[trigger] s.nodes[i]).1.node_id != node_id
                &&& {
                    ||| s.nodes[i].1.control_addr == control_addr
                    ||| s.nodes[i].1.control_addr == bulk_addr
                    ||| s.nodes[i].1.bulk_addr == control_addr
                    ||| s.nodes[i].1.bulk_addr == bulk_addr
                }
            };
        assert(endpoint_clash(s.nodes[i].1, node_id, control_addr, bulk_addr));
    }
}

// -- placements --------------------------------------------------------------

/// Whether the directory holds every one of these nodes, and holds it active.
pub open spec fn all_active(s: MetaView, nodes: Seq<NodeId>) -> bool {
    forall|i: int|
        0 <= i < nodes.len() ==> (s.node(#[trigger] nodes[i]) matches Some(e) && e.state
            == NodeState::Active)
}

/// A data partition is placed for the first time on as many distinct nodes as
/// the cluster replicates to, every one of them active, at the command's own log
/// position. Placing it there again changes nothing; placing it elsewhere, or
/// during a move, is a conflict. The meta group is never placed so.
pub proof fn law_first_placement_takes_effect(
    s: StorageView,
    group: GroupId,
    voters: Seq<NodeId>,
    log_id: LogId,
)
    ensures
        ({
            let cmd = MetaCommandView::SeedPlacement { group, voters };
            let t = meta_after(s, cmd, log_id);
            let config = s.meta.cluster->0;
            let fitting = group matches GroupId::Data(q) && q < config.p && voters.no_duplicates()
                && voters.len() == config.r;
            let held = s.meta.placement(group);
            let same = held is Some && held->0.move_plan is None && forall|v: NodeId|
                #[trigger] held->0.voters.contains(v) <==> voters.contains(v);
            &&& answer(s, cmd, log_id) == Some(
                ResultView::Rejected(RejectView::ClusterNotInitialized),
            ) <==> s.meta.cluster is None
            &&& answer(s, cmd, log_id) == Some(ResultView::Rejected(RejectView::SeedMetaForbidden))
                <==> s.meta.cluster is Some && group == GroupId::Meta
            &&& (answer(s, cmd, log_id) matches Some(
                ResultView::Rejected(RejectView::IllegalVoterChange(_)),
            )) <==> s.meta.cluster is Some && group != GroupId::Meta && !fitting
            &&& answer(s, cmd, log_id) == Some(ResultView::Rejected(RejectView::IneligibleTarget))
                <==> s.meta.cluster is Some && fitting && !all_active(s.meta, voters)
            &&& answer(s, cmd, log_id) == Some(ResultView::NoOp) <==> s.meta.cluster is Some
                && fitting && all_active(s.meta, voters) && same
            &&& answer(s, cmd, log_id) == Some(ResultView::Rejected(RejectView::PlacementConflict))
                <==> s.meta.cluster is Some && fitting && all_active(s.meta, voters) && held is Some
                && !same
            &&& answer(s, cmd, log_id) == Some(ResultView::Applied) <==> s.meta.cluster is Some
                && fitting && all_active(s.meta, voters) && held is None
            &&& answer(s, cmd, log_id) == Some(ResultView::Applied) ==> {
                &&& t.placement(group) matches Some(p) && rising(p.voters) && p.voters.to_set()
                    == voters.to_set() && p.voters_log_id == log_id && p.move_plan is None
                &&& forall|other: GroupId|
                    other != group ==> #[trigger] t.placement(other) == s.meta.placement(other)
                &&& t == (MetaView {
                    placements: t.placements,
                    last_applied: Some(log_id),
                    ..s.meta
                })
            }
        }),
{
    let cmd = MetaCommandView::SeedPlacement { group, voters };
    law_answers_move_the_position(s, cmd, log_id);
    if let Some(p) = s.meta.placement(group) {
        lemma_same_members(p.voters, voters);
    }
    if exists|i: int| 0 <= i < voters.len() && !is_active(s.meta, #[trigger] voters[i]) {
        assert(!all_active(s.meta, voters));
    } else {
        assert(all_active(s.meta, voters)) by {
            assert forall|i: int| 0 <= i < voters.len() implies (s.meta.node(
                #[trigger] voters[i],
            ) matches Some(e) && e.state == NodeState::Active) by {
                assert(is_active(s.meta, voters[i]));
            }
        }
    }
    if answer(s, cmd, log_id) == Some(ResultView::Applied) {
        lemma_sorted_distinct(voters);
        lemma_sorted(voters);
        lemma_placement_stored(s, cmd, log_id);
    }
}

/// The records after a command that stores one placement.
proof fn lemma_placement_stored(s: StorageView, cmd: MetaCommandView, log_id: LogId)
    requires
        decide(s, cmd, log_id) matches Decision::Decided(_, muts) && muts.len() == 1
            && muts[0] is PutPlacement,
    ensures
        ({
            let m = decide(s, cmd, log_id)->Decided_1[0];
            let t = meta_after(s, cmd, log_id);
            &&& t.placement(m->PutPlacement_group) == Some(m->PutPlacement_placement)
            &&& forall|other: GroupId|
                other != m->PutPlacement_group ==> #[trigger] t.placement(other)
                    == s.meta.placement(other)
            &&& t == (MetaView { placements: t.placements, last_applied: Some(log_id), ..s.meta })
        }),
{
    let muts = decide(s, cmd, log_id)->Decided_1;
    assert(muts =~= seq![muts[0]]);
    lemma_after_one(s.meta, muts[0]);
    lemma_put(s.meta.placements, muts[0]->PutPlacement_group, muts[0]->PutPlacement_placement);
}

/// How many directory entries are active.
pub proof fn law_active_nodes_are_counted(nodes: Seq<(NodeId, NodeEntryView)>)
    ensures
        active_count(nodes) == nodes.filter(
            |e: (NodeId, NodeEntryView)| e.1.state == NodeState::Active,
        ).len(),
    decreases nodes.len(),
{
    reveal(Seq::filter);
    if nodes.len() > 0 {
        law_active_nodes_are_counted(nodes.drop_last());
    }
}

/// A move is planned for a placed group that has none, to distinct voters of
/// which every new one is active. A data group keeps its size, takes one voter in
/// and lets one go, while at least as many nodes are active as it replicates to;
/// the meta group may also just let one go, down to three. The plan stands
/// beside the unchanged voters under the command's log index, not aborting.
pub proof fn law_planning_takes_effect(
    s: StorageView,
    group: GroupId,
    plan_id: u64,
    target_voters: Seq<NodeId>,
    log_id: LogId,
)
    ensures
        ({
            let cmd = MetaCommandView::CreatePlan { group, plan_id, target_voters };
            let t = meta_after(s, cmd, log_id);
            let config = s.meta.cluster->0;
            let p = s.meta.placement(group)->0;
            let placed = s.meta.cluster is Some && s.meta.placement(group) is Some;
            let added = target_voters.to_set().difference(p.voters.to_set()).len();
            let removed = p.voters.to_set().difference(target_voters.to_set()).len();
            let size = target_voters.to_set().len();
            let enough = s.meta.nodes.filter(
                |e: (NodeId, NodeEntryView)| e.1.state == NodeState::Active,
            ).len() >= config.r;
            let legal = target_voters.no_duplicates() && match group {
                GroupId::Data(_) => size == config.r && added == 1 && removed == 1,
                GroupId::Meta => size >= 3 && removed == 1 && ((added == 1 && size
                    == p.voters.to_set().len()) || (added == 0 && size + 1
                    == p.voters.to_set().len())),
            };
            let eligible = (group is Data ==> enough) && forall|v: NodeId|
                #[trigger] target_voters.contains(v) && !p.voters.contains(v) ==> (s.meta.node(
                    v,
                ) matches Some(e) && e.state == NodeState::Active);
            &&& answer(s, cmd, log_id) == Some(
                ResultView::Rejected(RejectView::ClusterNotInitialized),
            ) <==> s.meta.cluster is None
            &&& answer(s, cmd, log_id) == Some(ResultView::Rejected(RejectView::NoPlacement))
                <==> s.meta.cluster is Some && s.meta.placement(group) is None
            &&& answer(s, cmd, log_id) == Some(ResultView::Rejected(RejectView::PlanExists))
                <==> placed && p.move_plan is Some
            &&& (answer(s, cmd, log_id) matches Some(
                ResultView::Rejected(RejectView::IllegalVoterChange(_)),
            )) <==> placed && p.move_plan is None && !legal
            &&& answer(s, cmd, log_id) == Some(ResultView::Rejected(RejectView::IneligibleTarget))
                <==> placed && p.move_plan is None && legal && !eligible
            &&& answer(s, cmd, log_id) == Some(ResultView::Applied) <==> placed && p.move_plan is None
                && legal && eligible
            &&& answer(s, cmd, log_id) == Some(ResultView::Applied) ==> {
                &&& t.placement(group) matches Some(q) && q.voters == p.voters && q.voters_log_id
                    == p.voters_log_id && (q.move_plan matches Some(plan) && plan.plan_id
                    == log_id.index && !plan.aborting && rising(plan.target_voters)
                    && plan.target_voters.to_set() == target_voters.to_set())
                &&& forall|other: GroupId|
                    other != group ==> #[trigger] t.placement(other) == s.meta.placement(other)
                &&& t == (MetaView {
                    placements: t.placements,
                    last_applied: Some(log_id),
                    ..s.meta
                })
            }
        }),
{
    let cmd = MetaCommandView::CreatePlan { group, plan_id, target_voters };
    let p = s.meta.placement(group)->0;
    law_answers_move_the_position(s, cmd, log_id);
    law_active_nodes_are_counted(s.meta.nodes);
    assert forall|v: NodeId| #[trigger] is_active(s.meta, v) <==> (s.meta.node(v) matches Some(e)
        && e.state == NodeState::Active) by {}
    if exists|v: NodeId|
        target_voters.contains(v) && !p.voters.contains(v) && !#[trigger] is_active(s.meta, v) {
        let v = choose|v: NodeId|
            target_voters.contains(v) && !p.voters.contains(v) && !#[trigger] is_active(s.meta, v);
        assert(target_voters.contains(v));
    } else {
        assert forall|v: NodeId|
            #[trigger] target_voters.contains(v) && !p.voters.contains(v) implies (s.meta.node(
            v,
        ) matches Some(e) && e.state == NodeState::Active) by {
            assert(is_active(s.meta, v));
        }
    }
    if answer(s, cmd, log_id) == Some(ResultView::Applied) {
        lemma_sorted_distinct(target_voters);
        lemma_sorted(target_voters);
        lemma_placement_stored(s, cmd, log_id);
    }
}

/// A plan is marked aborting under its own id, once; nothing else of the
/// placement changes.
pub proof fn law_marking_takes_effect(
    s: StorageView,
    group: GroupId,
    plan_id: u64,
    log_id: LogId,
)
    ensures
        ({
            let cmd = MetaCommandView::MarkAborting { group, plan_id };
            let t = meta_after(s, cmd, log_id);
            let p = s.meta.placement(group)->0;
            let plan = p.move_plan->0;
            let planned = s.meta.placement(group) is Some && p.move_plan is Some;
            &&& answer(s, cmd, log_id) == Some(ResultView::Rejected(RejectView::NoPlan))
                <==> !planned
            &&& answer(s, cmd, log_id) == Some(ResultView::Rejected(RejectView::PlanIdMismatch))
                <==> planned && plan.plan_id != plan_id
            &&& answer(s, cmd, log_id) == Some(ResultView::NoOp) <==> planned && plan.plan_id
                == plan_id && plan.aborting
            &&& answer(s, cmd, log_id) == Some(ResultView::Applied) <==> planned && plan.plan_id
                == plan_id && !plan.aborting
            &&& answer(s, cmd, log_id) == Some(ResultView::Applied) ==> {
                &&& t.placement(group) matches Some(q) && q.voters == p.voters && q.voters_log_id
                    == p.voters_log_id && (q.move_plan matches Some(marked) && marked.aborting
                    && marked.plan_id == plan.plan_id && marked.target_voters
                    == plan.target_voters)
                &&& forall|other: GroupId|
                    other != group ==> #[trigger] t.placement(other) == s.meta.placement(other)
                &&& t == (MetaView {
                    placements: t.placements,
                    last_applied: Some(log_id),
                    ..s.meta
                })
            }
        }),
{
    let cmd = MetaCommandView::MarkAborting { group, plan_id };
    law_answers_move_the_position(s, cmd, log_id);
    if answer(s, cmd, log_id) == Some(ResultView::Applied) {
        lemma_placement_stored(s, cmd, log_id);
    }
}

/// A plan is resolved by an observation of its group under its id: a healthy plan
/// only by its target voters, an aborting one only by an abort report of either
/// the voters it had or its target. The group is then placed on the observed
/// voters, at the observed configuration, and the plan is gone.
pub proof fn law_resolution_takes_effect(
    s: StorageView,
    group: GroupId,
    plan_id: u64,
    observation: ObservationView,
    is_abort: bool,
    log_id: LogId,
)
    ensures
        ({
            let cmd = if is_abort {
                MetaCommandView::AbortReport { group, plan_id, observation }
            } else {
                MetaCommandView::FinalizePlan { group, plan_id, observation }
            };
            let t = meta_after(s, cmd, log_id);
            let p = s.meta.placement(group)->0;
            let plan = p.move_plan->0;
            let planned = s.meta.placement(group) is Some && p.move_plan is Some;
            let own = planned && plan.plan_id == plan_id && observation.group == group
                && observation.plan_id == plan_id;
            let seen = observation.voter_set.to_set();
            let settles = seen == plan.target_voters.to_set() || (is_abort && seen
                == p.voters.to_set());
            &&& answer(s, cmd, log_id) == Some(ResultView::Rejected(RejectView::NoPlan))
                <==> !planned
            &&& answer(s, cmd, log_id) == Some(ResultView::Rejected(RejectView::PlanIdMismatch))
                <==> planned && plan.plan_id != plan_id
            &&& answer(s, cmd, log_id) == Some(ResultView::Rejected(RejectView::NotAborting))
                <==> own && is_abort && !plan.aborting
            &&& answer(s, cmd, log_id) == Some(ResultView::Rejected(RejectView::PlanAborting))
                <==> own && !is_abort && plan.aborting
            &&& answer(s, cmd, log_id) == Some(
                ResultView::Rejected(RejectView::ObservationMismatch),
            ) <==> planned && plan.plan_id == plan_id && (!own || (is_abort == plan.aborting
                && !settles))
            &&& answer(s, cmd, log_id) == Some(ResultView::Applied) <==> own && is_abort
                == plan.aborting && settles
            &&& answer(s, cmd, log_id) == Some(ResultView::Applied) ==> {
                &&& t.placement(group) matches Some(q) && q.voters.to_set() == seen
                    && q.voters_log_id == observation.config_log_id && q.move_plan is None
                &&& forall|other: GroupId|
                    other != group ==> #[trigger] t.placement(other) == s.meta.placement(other)
                &&& t == (MetaView {
                    placements: t.placements,
                    last_applied: Some(log_id),
                    ..s.meta
                })
            }
        }),
{
    let cmd = if is_abort {
        MetaCommandView::AbortReport { group, plan_id, observation }
    } else {
        MetaCommandView::FinalizePlan { group, plan_id, observation }
    };
    law_answers_move_the_position(s, cmd, log_id);
    if answer(s, cmd, log_id) == Some(ResultView::Applied) {
        let p = s.meta.placement(group)->0;
        lemma_sorted(p.voters);
        lemma_sorted(p.move_plan->0.target_voters);
        lemma_placement_stored(s, cmd, log_id);
    }
}

// -- the search catalog ------------------------------------------------------

/// Whether a stored claim under an index says that a node has built a
/// generation of it for a group, at a voter configuration of that group.
pub open spec fn claimed(
    s: MetaView,
    name: Seq<char>,
    building: GenerationView,
    group: GroupId,
    node_id: NodeId,
    voters_log_id: LogId,
) -> bool {
    exists|i: int|
        {
            &&& 0 <= i < s.ready.len()
            &&& (#[trigger] s.ready[i]).0.0 == name
            &&& s.ready[i].0.1 == building.id
            &&& s.ready[i].1.generation == building.id
            &&& s.ready[i].1.group == group
            &&& s.ready[i].1.node_id == node_id
            &&& s.ready[i].1.voters_log_id == voters_log_id
            &&& s.ready[i].1.definition_hash == building.definition_hash
            &&& s.ready[i].1.engine_revision == building.engine_revision
        }
}

/// Whether a partition is settled on a placement, every one of whose voters has
/// claimed a generation.
pub open spec fn claimed_by_all(
    s: MetaView,
    name: Seq<char>,
    building: GenerationView,
    partition: u16,
) -> bool {
    match s.placement(GroupId::Data(partition)) {
        None => false,
        Some(p) => p.move_plan is None && forall|j: int|
            0 <= j < p.voters.len() ==> claimed(
                s,
                name,
                building,
                GroupId::Data(partition),
                #[trigger] p.voters[j],
                p.voters_log_id,
            ),
    }
}

/// A generation becomes active only on the word of every replica: every
/// partition below the cluster's count has a placement with no move under way,
/// and for every voter of that placement there is a stored claim under the index
/// and the generation, made by that node for that group, at the placement's
/// voter configuration and with the building generation's fingerprint and engine
/// revision. Where one such claim is missing the answer is that the generation
/// is not ready; where none is, it is not.
pub proof fn law_activation_rests_on_every_voter(
    s: StorageView,
    name: Seq<char>,
    generation: u64,
    log_id: LogId,
)
    ensures
        ({
            let cmd = MetaCommandView::ActivateSearchIndexGeneration { name, generation };
            let record = s.meta.index(name)->0;
            let b = record.building->0;
            let config = s.meta.cluster->0;
            let asked = s.meta.index(name) is Some && record.defect() is None && record.building is Some
                && b.id == generation && s.meta.cluster is Some;
            &&& answer(s, cmd, log_id) == Some(ResultView::Applied) ==> asked && forall|
                partition: u16,
            |
                partition < config.p ==> #[trigger] claimed_by_all(s.meta, name, b, partition)
            &&& answer(s, cmd, log_id) == Some(
                ResultView::Rejected(RejectView::SearchGenerationNotReady),
            ) <==> asked && exists|partition: u16|
                partition < config.p && !#[trigger] claimed_by_all(s.meta, name, b, partition)
        }),
{
    let cmd = MetaCommandView::ActivateSearchIndexGeneration { name, generation };
    if let Some(record) = s.meta.index(name) {
        if let Some(b) = record.building {
            assert forall|partition: u16|
                claimed_by_all(s.meta, name, b, partition) == partition_ready(
                    s.meta,
                    name,
                    b,
                    partition,
                ) by {
                lemma_claimed_by_all(s.meta, name, b, partition);
            }
            if answer(s, cmd, log_id) == Some(ResultView::Applied) {
                assert forall|partition: u16| partition < s.meta.cluster->0.p implies
                    #[trigger] claimed_by_all(s.meta, name, b, partition) by {
                    assert(partition_ready(s.meta, name, b, partition));
                }
            }
        }
    }
}

proof fn lemma_claimed_by_all(
    s: MetaView,
    name: Seq<char>,
    building: GenerationView,
    partition: u16,
)
    ensures
        claimed_by_all(s, name, building, partition) == partition_ready(
            s,
            name,
            building,
            partition,
        ),
{
    if let Some(p) = s.placement(GroupId::Data(partition)) {
        assert forall|j: int| 0 <= j < p.voters.len() implies claimed(
            s,
            name,
            building,
            GroupId::Data(partition),
            #[trigger] p.voters[j],
            p.voters_log_id,
        ) == replica_ready(
            s.ready,
            name,
            building,
            GroupId::Data(partition),
            p.voters[j],
            p.voters_log_id,
        ) by {
            lemma_claimed(
                s,
                name,
                building,
                GroupId::Data(partition),
                p.voters[j],
                p.voters_log_id,
            );
        }
    }
}

proof fn lemma_claimed(
    s: MetaView,
    name: Seq<char>,
    building: GenerationView,
    group: GroupId,
    node_id: NodeId,
    voters_log_id: LogId,
)
    ensures
        claimed(s, name, building, group, node_id, voters_log_id) == replica_ready(
            s.ready,
            name,
            building,
            group,
            node_id,
            voters_log_id,
        ),
{
    if claimed(s, name, building, group, node_id, voters_log_id) {
        let i = choose|i: int|
            {
                &&& 0 <= i < s.ready.len()
                &&& (#[trigger] s.ready[i]).0.0 == name
                &&& s.ready[i].0.1 == building.id
                &&& s.ready[i].1.generation == building.id
                &&& s.ready[i].1.group == group
                &&& s.ready[i].1.node_id == node_id
                &&& s.ready[i].1.voters_log_id == voters_log_id
                &&& s.ready[i].1.definition_hash == building.definition_hash
                &&& s.ready[i].1.engine_revision == building.engine_revision
            };
        assert(claim_under(s.ready[i], name, building.id));
    }
}

/// Whether a text can name an index.
pub open spec fn names_an_index(name: Seq<char>) -> bool {
    0 < name.len() && encode_utf8(name).len() <= SEARCH_MAX_NAME_BYTES
}

/// What stands in the catalog under a name stands there under its own name.
proof fn lemma_index_name(s: MetaView, name: Seq<char>)
    requires
        s.well_formed(),
    ensures
        s.index(name) matches Some(record) ==> record.name == name,
{
    lemma_slot(s.indexes, name);
}

/// The records after a command that stores one catalog record.
proof fn lemma_record_stored(s: StorageView, cmd: MetaCommandView, log_id: LogId)
    requires
        decide(s, cmd, log_id) matches Decision::Decided(_, muts) && muts.len() == 1
            && muts[0] is PutIndex,
    ensures
        ({
            let m = decide(s, cmd, log_id)->Decided_1[0];
            let t = meta_after(s, cmd, log_id);
            &&& t.index(m->PutIndex_record.name) == Some(m->PutIndex_record)
            &&& forall|other: Seq<char>|
                other != m->PutIndex_record.name ==> #[trigger] t.index(other) == s.meta.index(
                    other,
                )
            &&& t == (MetaView { indexes: t.indexes, last_applied: Some(log_id), ..s.meta })
        }),
{
    let muts = decide(s, cmd, log_id)->Decided_1;
    assert(muts =~= seq![muts[0]]);
    lemma_after_one(s.meta, muts[0]);
    lemma_put(s.meta.indexes, muts[0]->PutIndex_record.name, muts[0]->PutIndex_record);
}

/// An index is created under a name that fits, once, while the catalog has room;
/// its next generation is started only when it serves one, builds none and few
/// enough wait for their removal. Asking again for what is being built changes
/// nothing. The new generation takes its id from the log position, and its
/// fingerprint and engine revision from the request; what the index served and
/// retired stays, as does every other record. A command without a revision means
/// the first one.
pub proof fn law_building_takes_effect(
    s: StorageView,
    name: Seq<char>,
    definition: DefinitionView,
    engine_revision: u32,
    update: bool,
    log_id: LogId,
)
    requires
        s.meta.well_formed(),
    ensures
        ({
            let cmd = if update {
                MetaCommandView::CreateSearchIndexGenerationWithRevision {
                    name,
                    definition,
                    engine_revision,
                }
            } else {
                MetaCommandView::CreateSearchIndexWithRevision { name, definition, engine_revision }
            };
            let unversioned = if update {
                MetaCommandView::CreateSearchIndexGeneration { name, definition }
            } else {
                MetaCommandView::CreateSearchIndex { name, definition }
            };
            let t = meta_after(s, cmd, log_id);
            let fitting = s.meta.cluster is Some && names_an_index(name) && definition.defect is None;
            let known = s.meta.index(name) is Some;
            let r = s.meta.index(name)->0;
            let readable = fitting && known && r.retiring.len()
                <= SEARCH_MAX_RETIRING_GENERATIONS;
            let b = r.building->0;
            let same = r.building is Some && b.definition_hash == definition.hash
                && b.engine_revision == engine_revision;
            &&& engine_revision == 1 ==> decide(s, unversioned, log_id) == decide(s, cmd, log_id)
            &&& answer(s, cmd, log_id) == Some(
                ResultView::Rejected(RejectView::ClusterNotInitialized),
            ) <==> s.meta.cluster is None
            &&& answer(s, cmd, log_id) is None <==> fitting && known && !readable
            &&& answer(s, cmd, log_id) == Some(ResultView::Applied) <==> if update {
                readable && r.building is None && r.active is Some && r.retiring.len()
                    < SEARCH_MAX_RETIRING_GENERATIONS
            } else {
                fitting && !known && s.meta.indexes.len() < SEARCH_MAX_INDEXES
            }
            &&& answer(s, cmd, log_id) == Some(ResultView::NoOp) <==> readable && same && (update
                || r.active is None)
            &&& answer(s, cmd, log_id) == Some(ResultView::Rejected(RejectView::SearchIndexExists))
                <==> !update && readable && !(same && r.active is None)
            &&& answer(s, cmd, log_id) == Some(
                ResultView::Rejected(RejectView::SearchGenerationExists),
            ) <==> update && readable && r.building is Some && !same
            &&& answer(s, cmd, log_id) == Some(
                ResultView::Rejected(RejectView::SearchIndexNotFound),
            ) <==> update && fitting && (!known || (readable && r.building is None && r.active is None))
            &&& answer(s, cmd, log_id) == Some(ResultView::Applied) ==> {
                &&& t.index(name) matches Some(n) && n.name == name && n.active == (if known {
                    r.active
                } else {
                    None
                }) && n.retiring == (if known {
                    r.retiring
                } else {
                    Seq::empty()
                }) && (n.building matches Some(g) && g.id == log_id.index && g.engine_revision
                    == engine_revision && g.definition == definition && g.definition_hash
                    == definition.hash)
                &&& forall|other: Seq<char>|
                    other != name ==> #[trigger] t.index(other) == s.meta.index(other)
                &&& t == (MetaView { indexes: t.indexes, last_applied: Some(log_id), ..s.meta })
            }
        }),
{
    let cmd = if update {
        MetaCommandView::CreateSearchIndexGenerationWithRevision {
            name,
            definition,
            engine_revision,
        }
    } else {
        MetaCommandView::CreateSearchIndexWithRevision { name, definition, engine_revision }
    };
    lemma_index_name(s.meta, name);
    if answer(s, cmd, log_id) == Some(ResultView::Applied) {
        lemma_record_stored(s, cmd, log_id);
    }
}

/// A replica's claim is taken in when it is for the generation that the index is
/// building, from a voter of a settled partition at that partition's own voter
/// configuration, with an epoch. A repeated claim changes nothing; one that falls
/// behind the claim that the same replica made before is refused. It replaces
/// that claim and no other.
pub proof fn law_claims_take_effect(
    s: StorageView,
    name: Seq<char>,
    claim: SearchIndexReady,
    log_id: LogId,
)
    requires
        s.meta.well_formed(),
    ensures
        ({
            let cmd = MetaCommandView::ReportSearchIndexReady { name, observation: claim };
            let t = meta_after(s, cmd, log_id);
            let r = s.meta.index(name)->0;
            let b = r.building->0;
            let p = s.meta.placement(claim.group)->0;
            let key: ReadyKey = (name, claim.generation, claim.group, claim.node_id);
            let readable = s.meta.index(name) is Some && names_an_index(name) && r.retiring.len()
                <= SEARCH_MAX_RETIRING_GENERATIONS;
            let matching = readable && r.building is Some && b.id == claim.generation
                && b.definition_hash == claim.definition_hash && b.engine_revision
                == claim.engine_revision;
            let ranged = claim.group matches GroupId::Data(q) && s.meta.cluster matches Some(c)
                && q < c.p && claim.projection_epoch != 0;
            let voting = s.meta.placement(claim.group) is Some && p.move_plan is None
                && p.voters_log_id == claim.voters_log_id && p.voters.contains(claim.node_id);
            let behind = s.meta.claim(key) matches Some(prior) && prior != claim && (
            claim.projection_epoch < prior.projection_epoch || (claim.projection_epoch
                == prior.projection_epoch && claim.source_log_id.index
                < prior.source_log_id.index));
            &&& answer(s, cmd, log_id) == Some(
                ResultView::Rejected(RejectView::SearchIndexNotFound),
            ) <==> s.meta.index(name) is None
            &&& answer(s, cmd, log_id) is None <==> s.meta.index(name) is Some && !readable
            &&& answer(s, cmd, log_id) == Some(
                ResultView::Rejected(RejectView::SearchGenerationMismatch),
            ) <==> readable && !matching
            &&& answer(s, cmd, log_id) == Some(ResultView::NoOp) <==> matching && ranged && voting
                && s.meta.claim(key) == Some(claim)
            &&& answer(s, cmd, log_id) == Some(ResultView::Applied) <==> matching && ranged
                && voting && !behind && s.meta.claim(key) != Some(claim)
            &&& answer(s, cmd, log_id) == Some(ResultView::Rejected(RejectView::NoPlacement))
                <==> matching && ranged && s.meta.placement(claim.group) is None
            &&& matching && ranged && s.meta.placement(claim.group) is Some && (!voting || behind)
                ==> answer(s, cmd, log_id) == Some(
                ResultView::Rejected(RejectView::ObservationMismatch),
            )
            &&& answer(s, cmd, log_id) == Some(ResultView::Applied) ==> {
                &&& t.claim(key) == Some(claim)
                &&& forall|other: ReadyKey|
                    other != key ==> #[trigger] t.claim(other) == s.meta.claim(other)
                &&& t == (MetaView { ready: t.ready, last_applied: Some(log_id), ..s.meta })
            }
        }),
{
    let cmd = MetaCommandView::ReportSearchIndexReady { name, observation: claim };
    lemma_index_name(s.meta, name);
    if answer(s, cmd, log_id) == Some(ResultView::Applied) {
        let key: ReadyKey = (name, claim.generation, claim.group, claim.node_id);
        lemma_applied_is(s, MutationView::PutReady { name, claim }, log_id);
        lemma_put(s.meta.ready, key, claim);
    }
}

/// Whether a list is another one with at most one entry at its end: `id`, where
/// the other does not hold it.
pub open spec fn appended(before: Seq<u64>, id: u64, after: Seq<u64>) -> bool {
    if before.contains(id) {
        after == before
    } else {
        after.len() == before.len() + 1 && after.last() == id && after.drop_last() == before
    }
}

/// Whether a list is another one that a generation, if there is one, has joined.
pub open spec fn joined(
    before: Seq<u64>,
    generation: Option<GenerationView>,
    after: Seq<u64>,
) -> bool {
    match generation {
        Some(g) => appended(before, g.id, after),
        None => after == before,
    }
}

/// The records after a command that stores one catalog record and clears claims.
proof fn lemma_record_and_claims(
    s: StorageView,
    cmd: MetaCommandView,
    log_id: LogId,
    record: RecordView,
    generation: u64,
)
    requires
        s.meta.well_formed(),
        decide(s, cmd, log_id) == Decision::Decided(
            ResultView::Applied,
            seq![MutationView::PutIndex { record }] + claim_deletes(
                s.meta.ready,
                record.name,
                generation,
            ),
        ),
    ensures
        ({
            let t = meta_after(s, cmd, log_id);
            &&& t.index(record.name) == Some(record)
            &&& forall|other: Seq<char>|
                other != record.name ==> #[trigger] t.index(other) == s.meta.index(other)
            &&& forall|k: ReadyKey| #[trigger]
                t.claim(k) == if k.0 == record.name && k.1 == generation {
                    None
                } else {
                    s.meta.claim(k)
                }
            &&& t == (MetaView {
                indexes: t.indexes,
                ready: t.ready,
                last_applied: Some(log_id),
                ..s.meta
            })
        }),
{
    let name = record.name;
    let m = MutationView::PutIndex { record };
    let deletes = claim_deletes(s.meta.ready, name, generation);
    lemma_after_append(s.meta, seq![m], deletes);
    lemma_after_one(s.meta, m);
    let u = m.after(s.meta);
    let t = after_all(u, deletes);
    lemma_put(s.meta.indexes, name, record);
    lemma_deletes_frame(u, s.meta.ready, name, generation);
    lemma_deletes_effect(u, s.meta.ready, name, generation);
    assert forall|k: ReadyKey| #[trigger]
        meta_after(s, cmd, log_id).claim(k) == if k.0 == name && k.1 == generation {
            None
        } else {
            s.meta.claim(k)
        } by {
        assert(meta_after(s, cmd, log_id).claim(k) == t.claim(k));
        if k.0 == name && k.1 == generation && t.claim(k) is Some {
            assert(t.claim(k) == u.claim(k));
            lemma_slot(s.meta.ready, k);
            let i = slot(s.meta.ready, k);
            assert(claim_under(s.meta.ready[i], name, generation));
            assert(t.claim(s.meta.ready[i].0) is None);
        }
    }
}

/// An activation that every voter backs makes the building generation the one
/// that serves. What served before waits for its removal behind what waits
/// already, the claims for the generation are gone, and nothing else changes. It
/// is refused where too many generations would wait, and changes nothing where
/// the generation serves already.
pub proof fn law_activation_replaces_the_active(
    s: StorageView,
    name: Seq<char>,
    generation: u64,
    log_id: LogId,
)
    requires
        s.meta.well_formed(),
    ensures
        ({
            let cmd = MetaCommandView::ActivateSearchIndexGeneration { name, generation };
            let t = meta_after(s, cmd, log_id);
            let r = s.meta.index(name)->0;
            let readable = s.meta.index(name) is Some && names_an_index(name) && r.retiring.len()
                <= SEARCH_MAX_RETIRING_GENERATIONS;
            let backed = readable && r.building is Some && r.building->0.id == generation
                && s.meta.cluster is Some && forall|partition: u16|
                partition < s.meta.cluster->0.p ==> #[trigger] claimed_by_all(
                    s.meta,
                    name,
                    r.building->0,
                    partition,
                );
            let full = r.active is Some && !r.retiring.contains(r.active->0.id)
                && r.retiring.len() >= SEARCH_MAX_RETIRING_GENERATIONS;
            &&& answer(s, cmd, log_id) == Some(
                ResultView::Rejected(RejectView::SearchIndexNotFound),
            ) <==> s.meta.index(name) is None
            &&& answer(s, cmd, log_id) is None <==> s.meta.index(name) is Some && !readable
            &&& answer(s, cmd, log_id) == Some(ResultView::NoOp) <==> readable && r.building is None
                && r.active is Some && r.active->0.id == generation
            &&& answer(s, cmd, log_id) == Some(ResultView::Applied) <==> backed && !full
            &&& answer(s, cmd, log_id) == Some(ResultView::Applied) ==> {
                &&& t.index(name) matches Some(n) && n.name == name && n.active == r.building
                    && n.building is None && joined(r.retiring, r.active, n.retiring)
                &&& forall|other: Seq<char>|
                    other != name ==> #[trigger] t.index(other) == s.meta.index(other)
                &&& forall|k: ReadyKey| #[trigger]
                    t.claim(k) == if k.0 == name && k.1 == generation {
                        None
                    } else {
                        s.meta.claim(k)
                    }
                &&& t == (MetaView {
                    indexes: t.indexes,
                    ready: t.ready,
                    last_applied: Some(log_id),
                    ..s.meta
                })
            }
        }),
{
    let cmd = MetaCommandView::ActivateSearchIndexGeneration { name, generation };
    lemma_index_name(s.meta, name);
    law_activation_rests_on_every_voter(s, name, generation, log_id);
    if answer(s, cmd, log_id) == Some(ResultView::Applied) {
        let r = s.meta.index(name)->0;
        let muts = decide(s, cmd, log_id)->Decided_1;
        let record = muts[0]->PutIndex_record;
        lemma_record_and_claims(s, cmd, log_id, record, generation);
        if let Some(a) = r.active {
            if !r.retiring.contains(a.id) {
                assert(record.retiring.drop_last() =~= r.retiring);
            }
        }
    }
}

/// Dropping an index takes what it serves and what it builds out of service:
/// both wait for their removal, in this order, behind what waits already. The
/// claims for what it built are gone, and nothing else changes. It is refused
/// where too many generations would wait, and changes nothing where there is
/// nothing left to drop.
pub proof fn law_drop_retires_both(s: StorageView, name: Seq<char>, log_id: LogId)
    requires
        s.meta.well_formed(),
    ensures
        ({
            let cmd = MetaCommandView::DropSearchIndex { name };
            let t = meta_after(s, cmd, log_id);
            let r = s.meta.index(name)->0;
            let readable = s.meta.index(name) is Some && names_an_index(name) && r.retiring.len()
                <= SEARCH_MAX_RETIRING_GENERATIONS;
            let live = r.active is Some || r.building is Some;
            let more = (if r.active is Some && !r.retiring.contains(r.active->0.id) {
                1int
            } else {
                0
            }) + (if r.building is Some && !r.retiring.contains(r.building->0.id) {
                1int
            } else {
                0
            });
            &&& answer(s, cmd, log_id) is None <==> s.meta.index(name) is Some && !readable
            &&& answer(s, cmd, log_id) == Some(ResultView::NoOp) <==> s.meta.index(name) is None || (
            readable && !live)
            &&& answer(s, cmd, log_id) == Some(ResultView::Applied) <==> readable && live
                && r.retiring.len() + more <= SEARCH_MAX_RETIRING_GENERATIONS
            &&& answer(s, cmd, log_id) == Some(ResultView::Applied) ==> {
                &&& t.index(name) matches Some(n) && n.name == name && n.active is None
                    && n.building is None && exists|half: Seq<u64>| #[trigger]
                    joined(r.retiring, r.active, half) && joined(half, r.building, n.retiring)
                &&& forall|other: Seq<char>|
                    other != name ==> #[trigger] t.index(other) == s.meta.index(other)
                &&& forall|k: ReadyKey| #[trigger]
                    t.claim(k) == if r.building is Some && k.0 == name && k.1
                        == r.building->0.id {
                        None
                    } else {
                        s.meta.claim(k)
                    }
                &&& t == (MetaView {
                    indexes: t.indexes,
                    ready: t.ready,
                    last_applied: Some(log_id),
                    ..s.meta
                })
            }
        }),
{
    let cmd = MetaCommandView::DropSearchIndex { name };
    lemma_index_name(s.meta, name);
    if let Some(r) = s.meta.index(name) {
        let half = match r.active {
            Some(a) => with_id(r.retiring, a.id),
            None => r.retiring,
        };
        if let Some(a) = r.active {
            if !r.retiring.contains(a.id) {
                assert(half.drop_last() =~= r.retiring);
                assert(half[r.retiring.len() as int] == a.id);
            }
        }
        assert(joined(r.retiring, r.active, half));
        if let Some(b) = r.building {
            let whole = with_id(half, b.id);
            if !half.contains(b.id) {
                assert(whole.drop_last() =~= half);
            }
            assert(joined(half, r.building, whole));
        }
        if answer(s, cmd, log_id) == Some(ResultView::Applied) {
            let muts = decide(s, cmd, log_id)->Decided_1;
            let record = muts[0]->PutIndex_record;
            match r.building {
                Some(b) => {
                    lemma_record_and_claims(s, cmd, log_id, record, b.id);
                },
                None => {
                    assert(muts =~= seq![MutationView::PutIndex { record }]);
                    lemma_record_stored(s, cmd, log_id);
                },
            }
        }
    }
}

/// A removed generation is forgotten: it leaves the list of those that wait,
/// which keeps the others in their order, and the index goes with the last one
/// when it neither serves nor builds. A generation that does not wait changes
/// nothing.
pub proof fn law_finalized_generations_are_forgotten(
    s: StorageView,
    name: Seq<char>,
    generation: u64,
    log_id: LogId,
)
    requires
        s.meta.well_formed(),
    ensures
        ({
            let cmd = MetaCommandView::FinalizeSearchIndexDrop { name, generation };
            let t = meta_after(s, cmd, log_id);
            let r = s.meta.index(name)->0;
            let readable = s.meta.index(name) is Some && names_an_index(name) && r.retiring.len()
                <= SEARCH_MAX_RETIRING_GENERATIONS;
            let left = r.retiring.filter(|id: u64| id != generation);
            &&& answer(s, cmd, log_id) is None <==> s.meta.index(name) is Some && !readable
            &&& answer(s, cmd, log_id) == Some(ResultView::Applied) <==> readable
                && r.retiring.contains(generation)
            &&& answer(s, cmd, log_id) == Some(ResultView::NoOp) <==> s.meta.index(name) is None || (
            readable && !r.retiring.contains(generation))
            &&& answer(s, cmd, log_id) == Some(ResultView::Applied) ==> {
                &&& t.index(name) == if r.active is None && r.building is None && left.len() == 0 {
                    None
                } else {
                    Some(RecordView { retiring: left, ..r })
                }
                &&& forall|other: Seq<char>|
                    other != name ==> #[trigger] t.index(other) == s.meta.index(other)
                &&& t == (MetaView { indexes: t.indexes, last_applied: Some(log_id), ..s.meta })
            }
        }),
{
    let cmd = MetaCommandView::FinalizeSearchIndexDrop { name, generation };
    lemma_index_name(s.meta, name);
    if let Some(r) = s.meta.index(name) {
        lemma_without_is_filter(r.retiring, generation);
        if answer(s, cmd, log_id) == Some(ResultView::Applied) {
            let muts = decide(s, cmd, log_id)->Decided_1;
            let m = muts[0];
            assert(muts =~= seq![m]);
            lemma_after_one(s.meta, m);
            if m is PutIndex {
                lemma_record_stored(s, cmd, log_id);
            } else {
                lemma_del(s.meta.indexes, name);
            }
        }
    }
}

proof fn lemma_without_is_filter(s: Seq<u64>, id: u64)
    ensures
        without(s, id) == s.filter(|x: u64| x != id),
        without(s, id).len() <= s.len(),
        without(s, id).len() == s.len() <==> !s.contains(id),
    decreases s.len(),
{
    reveal(Seq::filter);
    if s.len() > 0 {
        let head = s.drop_last();
        lemma_without_is_filter(head, id);
        if head.contains(id) {
            let k = head.index_of(id);
            assert(s[k] == id);
        } else if s.last() != id {
            assert forall|k: int| 0 <= k < s.len() implies s[k] != id by {
                if k < head.len() {
                    assert(head[k] == s[k]);
                    assert(head.contains(head[k]));
                }
            }
        } else {
            assert(s[s.len() - 1] == id);
        }
    }
}

} // verus!
