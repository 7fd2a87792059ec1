//! What holds of the meta state over every command: its invariant, and how the
//! commands relate to each other.
use crate::assoc::{get, keys_distinct, lemma_del, lemma_put, lemma_put_ranked, lemma_slot, slot};
use crate::meta::state::{
    after_all, lemma_mutation_well_formed, law_mutations_keep_well_formed, MetaView, MutationView,
    ReadyKey,
};
use crate::meta::state_machine::{
    activate_search_generation_decision, activation, applied, applied_state, claim_deletes,
    claim_under, cluster_init_decision, create_plan_decision, create_search_index_decision, decide,
    drop_search_index_decision, dropped_retiring, endpoint_clash, endpoint_taken,
    finalize_plan_decision, finalize_search_drop_decision, is_active, mark_aborting_decision,
    no_change, partition_ready, refused, register_node_decision, report_search_ready_decision,
    seed_placement_decision, set_node_state_decision, settled_voters, stored, stored_with_deletes,
    with_id, Decision, RejectView, ResultView,
};
use crate::search::{DefinitionView, RecordView, SearchIndexReady, SEARCH_MAX_INDEXES};
use crate::sets::{
    lemma_distinct_count, lemma_rising_set, lemma_sorted_rising, rising, rising_members, sorted, without,
};
use crate::storage::StorageView;
use crate::types::{
    ClusterConfig, GroupId, LogId, MetaCommandView, MovePlanView, NodeEntryView, NodeId, NodeState,
    ObservationView, PlacementView, MAX_CLUSTER_NODES,
};
use vstd::prelude::*;

verus! {

/// Whether two nodes share no endpoint on any lane.
pub open spec fn endpoints_apart(a: NodeEntryView, b: NodeEntryView) -> bool {
    a.control_addr != b.control_addr && a.control_addr != b.bulk_addr && a.bulk_addr
        != b.control_addr && a.bulk_addr != b.bulk_addr
}

/// What holds of a move under way: its target is a proper voter set that
/// replaces one voter, or for the meta group removes one.
pub open spec fn plan_sound(
    config: ClusterConfig,
    group: GroupId,
    voters: Seq<NodeId>,
    target: Seq<NodeId>,
) -> bool {
    &&& rising(target)
    &&& voters.to_set().difference(target.to_set()).len() == 1
    &&& match group {
        GroupId::Data(_) => target.len() == config.r && target.to_set().difference(
            voters.to_set(),
        ).len() == 1,
        GroupId::Meta => target.len() >= 3 && target.to_set().difference(voters.to_set()).len()
            <= 1,
    }
}

/// What holds of a placement: distinct voters in order, as many as the cluster
/// replicates, on a partition that exists.
pub open spec fn placement_sound(
    config: ClusterConfig,
    group: GroupId,
    placement: PlacementView,
) -> bool {
    &&& rising(placement.voters)
    &&& match group {
        GroupId::Data(partition) => partition < config.p && placement.voters.len() == config.r,
        GroupId::Meta => placement.voters.len() >= 3,
    }
    &&& placement.move_plan matches Some(plan) ==> plan_sound(
        config,
        group,
        placement.voters,
        plan.target_voters,
    )
}

/// What holds of the directory under one node id.
pub open spec fn node_sound(id: NodeId, entry: Option<NodeEntryView>) -> bool {
    entry matches Some(e) ==> e.node_id == id && id != 0
}

/// What holds of the catalog under one name.
pub open spec fn index_sound(name: Seq<char>, record: Option<RecordView>) -> bool {
    record matches Some(r) ==> r.name == name && r.defect() is None
}

/// What holds of the placements under one group.
pub open spec fn group_sound(
    config: ClusterConfig,
    group: GroupId,
    placement: Option<PlacementView>,
) -> bool {
    placement matches Some(p) ==> placement_sound(config, group, p)
}

/// The invariant of the meta state.
pub open spec fn sound(s: MetaView) -> bool {
    &&& s.well_formed()
    &&& s.nodes.len() <= MAX_CLUSTER_NODES
    &&& s.indexes.len() <= SEARCH_MAX_INDEXES
    &&& forall|id: NodeId| node_sound(id, #[trigger] s.node(id))
    &&& forall|a: NodeId, b: NodeId|
        a != b && (#[trigger] s.node(a)) is Some && (#[trigger] s.node(b)) is Some
            ==> endpoints_apart(s.node(a)->0, s.node(b)->0)
    &&& forall|n: Seq<char>| index_sound(n, #[trigger] s.index(n))
    &&& match s.cluster {
        None => s.nodes.len() == 0 && s.placements.len() == 0 && s.indexes.len() == 0
            && s.ready.len() == 0,
        Some(config) => {
            &&& config.r >= 3
            &&& config.p > 0
            &&& s.placement(GroupId::Meta) is Some
            &&& forall|g: GroupId| group_sound(config, g, #[trigger] s.placement(g))
        },
    }
}

/// A node that has no records yet is sound.
pub proof fn law_empty_is_sound()
    ensures
        sound(MetaView::empty()),
{
}

pub(crate) proof fn lemma_after_one(s: MetaView, m: MutationView)
    ensures
        after_all(s, seq![m]) == m.after(s),
{
    assert(seq![m].drop_last() =~= Seq::<MutationView>::empty());
    assert(after_all(s, Seq::<MutationView>::empty()) == s);
}

pub(crate) proof fn lemma_after_append(s: MetaView, x: Seq<MutationView>, y: Seq<MutationView>)
    ensures
        after_all(s, x + y) == after_all(after_all(s, x), y),
    decreases y.len(),
{
    if y.len() == 0 {
        assert(x + y =~= x);
    } else {
        lemma_after_append(s, x, y.drop_last());
        assert((x + y).drop_last() =~= x + y.drop_last());
        assert((x + y).last() == y.last());
    }
}

/// Clearing claims touches nothing else.
pub(crate) proof fn lemma_deletes_frame(
    s: MetaView,
    ready: Seq<(ReadyKey, SearchIndexReady)>,
    name: Seq<char>,
    generation: u64,
)
    ensures
        ({
            let t = after_all(s, claim_deletes(ready, name, generation));
            t == MetaView { ready: t.ready, ..s }
        }),
        s.ready.len() == 0 ==> after_all(s, claim_deletes(ready, name, generation)).ready.len()
            == 0,
    decreases ready.len(),
{
    if ready.len() > 0 {
        let rest = claim_deletes(ready.drop_last(), name, generation);
        lemma_deletes_frame(s, ready.drop_last(), name, generation);
        if claim_under(ready.last(), name, generation) {
            let m = MutationView::DeleteReady { key: ready.last().0 };
            assert(rest.push(m).drop_last() =~= rest);
            assert(rest.push(m).last() == m);
        }
    } else {
        assert(claim_deletes(ready, name, generation) =~= Seq::<MutationView>::empty());
    }
}

/// A sound state stays sound when one directory entry is stored that keeps
/// clear of the other nodes' endpoints.
proof fn lemma_put_node_sound(s: MetaView, entry: NodeEntryView)
    requires
        sound(s),
        s.cluster is Some,
        entry.node_id != 0,
        s.node(entry.node_id) is Some || s.nodes.len() < MAX_CLUSTER_NODES,
        forall|b: NodeId|
            b != entry.node_id && (#[trigger] s.node(b)) is Some ==> endpoints_apart(
                entry,
                s.node(b)->0,
            ),
    ensures
        sound(MutationView::PutNode { entry }.after(s)),
{
    let t = MutationView::PutNode { entry }.after(s);
    lemma_mutation_well_formed(s, MutationView::PutNode { entry });
    lemma_put_ranked(s.nodes, entry.node_id, entry);
    assert forall|id: NodeId| node_sound(id, #[trigger] t.node(id)) by {
        if id != entry.node_id {
            assert(t.node(id) == s.node(id));
        }
    }
    assert forall|a: NodeId, b: NodeId|
        a != b && (#[trigger] t.node(a)) is Some && (#[trigger] t.node(
            b,
        )) is Some implies endpoints_apart(t.node(a)->0, t.node(b)->0) by {
        if a != entry.node_id {
            assert(t.node(a) == s.node(a));
        }
        if b != entry.node_id {
            assert(t.node(b) == s.node(b));
        }
    }
    assert forall|n: Seq<char>| index_sound(n, #[trigger] t.index(n)) by {
        assert(t.index(n) == s.index(n));
    }
    assert forall|g: GroupId| group_sound(s.cluster->0, g, #[trigger] t.placement(g)) by {
        assert(t.placement(g) == s.placement(g));
    }
    assert(t.placement(GroupId::Meta) == s.placement(GroupId::Meta));
}

/// A sound state stays sound when a sound placement is stored.
proof fn lemma_put_placement_sound(s: MetaView, group: GroupId, placement: PlacementView)
    requires
        sound(s),
        s.cluster is Some,
        placement_sound(s.cluster->0, group, placement),
    ensures
        sound(MutationView::PutPlacement { group, placement }.after(s)),
{
    let m = MutationView::PutPlacement { group, placement };
    let t = m.after(s);
    lemma_mutation_well_formed(s, m);
    lemma_put(s.placements, group, placement);
    assert forall|g: GroupId| group_sound(s.cluster->0, g, #[trigger] t.placement(g)) by {
        if g != group {
            assert(t.placement(g) == s.placement(g));
        }
    }
    if group != GroupId::Meta {
        assert(t.placement(GroupId::Meta) == s.placement(GroupId::Meta));
    }
    assert forall|id: NodeId| node_sound(id, #[trigger] t.node(id)) by {
        assert(t.node(id) == s.node(id));
    }
    assert forall|a: NodeId, b: NodeId|
        a != b && (#[trigger] t.node(a)) is Some && (#[trigger] t.node(
            b,
        )) is Some implies endpoints_apart(t.node(a)->0, t.node(b)->0) by {
        assert(t.node(a) == s.node(a));
        assert(t.node(b) == s.node(b));
    }
    assert forall|n: Seq<char>| index_sound(n, #[trigger] t.index(n)) by {
        assert(t.index(n) == s.index(n));
    }
}

/// A sound state stays sound when nothing but valid catalog records and claims
/// change.
proof fn lemma_catalog_sound(s: MetaView, t: MetaView)
    requires
        sound(s),
        s.cluster is Some,
        t.well_formed(),
        t == (MetaView { indexes: t.indexes, ready: t.ready, ..s }),
        t.indexes.len() <= SEARCH_MAX_INDEXES,
        forall|n: Seq<char>| index_sound(n, #[trigger] t.index(n)),
    ensures
        sound(t),
{
    assert forall|g: GroupId| group_sound(s.cluster->0, g, #[trigger] t.placement(g)) by {
        assert(t.placement(g) == s.placement(g));
    }
    assert(t.placement(GroupId::Meta) == s.placement(GroupId::Meta));
    assert forall|id: NodeId| node_sound(id, #[trigger] t.node(id)) by {
        assert(t.node(id) == s.node(id));
    }
    assert forall|a: NodeId, b: NodeId|
        a != b && (#[trigger] t.node(a)) is Some && (#[trigger] t.node(
            b,
        )) is Some implies endpoints_apart(t.node(a)->0, t.node(b)->0) by {
        assert(t.node(a) == s.node(a));
        assert(t.node(b) == s.node(b));
    }
}

/// Storing a valid record, then clearing claims, keeps a sound state sound.
proof fn lemma_store_record_sound(
    s: MetaView,
    record: RecordView,
    deletes: Seq<MutationView>,
    name: Seq<char>,
    generation: u64,
)
    requires
        sound(s),
        s.cluster is Some,
        record.defect() is None,
        s.index(record.name) is Some || s.indexes.len() < SEARCH_MAX_INDEXES,
        deletes == Seq::<MutationView>::empty() || deletes == claim_deletes(
            s.ready,
            name,
            generation,
        ),
    ensures
        sound(after_all(s, seq![MutationView::PutIndex { record }] + deletes)),
{
    let m = MutationView::PutIndex { record };
    let u = m.after(s);
    lemma_after_one(s, m);
    lemma_after_append(s, seq![m], deletes);
    let t = after_all(u, deletes);
    lemma_mutation_well_formed(s, m);
    law_mutations_keep_well_formed(u, deletes);
    lemma_put(s.indexes, record.name, record);
    if deletes.len() == 0 {
        assert(deletes =~= Seq::<MutationView>::empty());
        assert(t == u);
    } else {
        lemma_deletes_frame(u, s.ready, name, generation);
    }
    assert(t.indexes == u.indexes);
    assert forall|n: Seq<char>| index_sound(n, #[trigger] t.index(n)) by {
        assert(t.index(n) == u.index(n));
        if n != record.name {
            assert(u.index(n) == s.index(n));
        }
    }
    lemma_catalog_sound(s, t);
}

proof fn lemma_no_change_sound(s: StorageView, r: ResultView, log_id: LogId)
    requires
        sound(s.meta),
    ensures
        sound(applied_state(s, no_change(r), log_id).meta),
{
    let t = applied_state(s, no_change(r), log_id).meta;
    assert(after_all(s.meta, Seq::<MutationView>::empty()) == s.meta);
    lemma_position_only(s.meta, t, log_id);
}

/// The applied position takes no part in the invariant.
proof fn lemma_position_only(s: MetaView, t: MetaView, log_id: LogId)
    requires
        sound(s),
        t == (MetaView { last_applied: Some(log_id), ..s }),
    ensures
        sound(t),
{
    assert forall|id: NodeId| node_sound(id, #[trigger] t.node(id)) by {
        assert(t.node(id) == s.node(id));
    }
    assert forall|a: NodeId, b: NodeId|
        a != b && (#[trigger] t.node(a)) is Some && (#[trigger] t.node(
            b,
        )) is Some implies endpoints_apart(t.node(a)->0, t.node(b)->0) by {
        assert(t.node(a) == s.node(a));
        assert(t.node(b) == s.node(b));
    }
    assert forall|n: Seq<char>| index_sound(n, #[trigger] t.index(n)) by {
        assert(t.index(n) == s.index(n));
    }
    if s.cluster is Some {
        assert(t.placement(GroupId::Meta) == s.placement(GroupId::Meta));
        assert forall|g: GroupId| group_sound(s.cluster->0, g, #[trigger] t.placement(g)) by {
            assert(t.placement(g) == s.placement(g));
        }
    }
}

proof fn lemma_applied_sound(s: StorageView, m: MutationView, log_id: LogId)
    requires
        sound(m.after(s.meta)),
    ensures
        sound(applied_state(s, applied(m), log_id).meta),
{
    lemma_after_one(s.meta, m);
    lemma_position_only(
        m.after(s.meta),
        applied_state(s, applied(m), log_id).meta,
        log_id,
    );
}

proof fn lemma_cluster_init_sound(
    s: StorageView,
    config: ClusterConfig,
    meta_voters: Seq<NodeId>,
    log_id: LogId,
)
    requires
        sound(s.meta),
    ensures
        sound(
            applied_state(s, cluster_init_decision(s, config, meta_voters, log_id), log_id).meta,
        ),
        !(cluster_init_decision(s, config, meta_voters, log_id) is Failed),
{
    let d = cluster_init_decision(s, config, meta_voters, log_id);
    if let Decision::Decided(r, muts) = d {
        if r != ResultView::Applied {
            assert(d == no_change(r));
            lemma_no_change_sound(s, r, log_id);
        } else {
            let placement = PlacementView {
                voters: rising_members(meta_voters.to_set()),
                voters_log_id: log_id,
                move_plan: None,
            };
            let a = MutationView::PutCluster { config };
            let b = MutationView::PutPlacement { group: GroupId::Meta, placement };
            assert(muts =~= seq![a] + seq![b]);
            lemma_after_append(s.meta, seq![a], seq![b]);
            lemma_after_one(s.meta, a);
            lemma_after_one(a.after(s.meta), b);
            let u = a.after(s.meta);
            let t = b.after(u);
            lemma_rising_exists(meta_voters);
            lemma_distinct_count(meta_voters);
            lemma_put(u.placements, GroupId::Meta, placement);
            lemma_mutation_well_formed(s.meta, a);
            lemma_mutation_well_formed(u, b);
            assert forall|g: GroupId| group_sound(config, g, #[trigger] t.placement(g)) by {
                if g != GroupId::Meta {
                    assert(t.placement(g) == get(u.placements, g));
                    lemma_slot(u.placements, g);
                }
            }
            assert forall|id: NodeId| node_sound(id, #[trigger] t.node(id)) by {
                assert(t.node(id) == s.meta.node(id));
            }
            assert forall|x: NodeId, y: NodeId|
                x != y && (#[trigger] t.node(x)) is Some && (#[trigger] t.node(
                    y,
                )) is Some implies endpoints_apart(t.node(x)->0, t.node(y)->0) by {
                assert(t.node(x) == s.meta.node(x));
                assert(t.node(y) == s.meta.node(y));
            }
            assert forall|n: Seq<char>| index_sound(n, #[trigger] t.index(n)) by {
                assert(t.index(n) == s.meta.index(n));
            }
            assert(sound(t));
            lemma_position_only(t, applied_state(s, d, log_id).meta, log_id);
        }
    }
}

/// Every finite set of node ids given by a list has a rising listing.
pub(crate) proof fn lemma_rising_exists(s: Seq<u64>)
    ensures
        rising(rising_members(s.to_set())),
        rising_members(s.to_set()).to_set() == s.to_set(),
        rising_members(s.to_set()).len() == s.to_set().len(),
    decreases s.len(),
{
    lemma_rising_witness(s);
    let w = choose|t: Seq<u64>| rising(t) && t.to_set() == s.to_set();
    assert(rising(w) && w.to_set() == s.to_set());
    lemma_rising_set(w);
}

proof fn lemma_rising_witness(s: Seq<u64>)
    ensures
        exists|t: Seq<u64>| rising(t) && t.to_set() == s.to_set(),
    decreases s.len(),
{
    if s.len() == 0 {
        assert(rising(s) && s.to_set() == s.to_set());
    } else {
        let head = s.drop_last();
        let v = s.last();
        lemma_rising_witness(head);
        let w = choose|t: Seq<u64>| rising(t) && t.to_set() == head.to_set();
        assert(s.to_set() =~= head.to_set().insert(v)) by {
            assert forall|x: u64| s.contains(x) implies head.contains(x) || x == v by {
                let i = s.index_of(x);
                if i < head.len() {
                    assert(head[i] == x);
                }
            }
            assert forall|x: u64| head.contains(x) || x == v implies s.contains(x) by {
                if head.contains(x) {
                    let i = head.index_of(x);
                    assert(s[i] == x);
                } else {
                    assert(s[s.len() - 1] == x);
                }
            }
        }
        if head.contains(v) {
            assert(head.to_set().insert(v) =~= head.to_set());
            assert(rising(w) && w.to_set() == s.to_set());
        } else {
            lemma_rising_set(w);
            assert(!w.contains(v)) by {
                if w.contains(v) {
                    assert(w.to_set().contains(v));
                    assert(head.to_set().contains(v));
                }
            }
            let t = w.push(v);
            let u = sorted(t);
            crate::sets::lemma_sorted(t);
            assert(t.no_duplicates()) by {
                assert forall|i: int, j: int| 0 <= i < t.len() && 0 <= j < t.len() && i
                    != j implies t[i] != t[j] by {
                    if i < w.len() && j < w.len() {
                        assert(w[i] != w[j]);
                    } else if i < w.len() {
                        assert(w.contains(w[i]));
                    } else {
                        assert(w.contains(w[j]));
                    }
                }
            }
            crate::sets::lemma_sorted_distinct(t);
            assert(t.to_set() =~= head.to_set().insert(v)) by {
                assert forall|x: u64| t.contains(x) implies w.contains(x) || x == v by {
                    let i = t.index_of(x);
                    if i < w.len() {
                        assert(w[i] == x);
                    }
                }
                assert forall|x: u64| w.contains(x) || x == v implies t.contains(x) by {
                    if w.contains(x) {
                        let i = w.index_of(x);
                        assert(t[i] == x);
                    } else {
                        assert(t[w.len() as int] == x);
                    }
                }
                assert forall|x: u64| w.contains(x) == head.contains(x) by {
                    assert(w.to_set().contains(x) == head.to_set().contains(x));
                }
            }
            assert(rising(u) && u.to_set() == s.to_set());
        }
    }
}

proof fn lemma_register_node_sound(
    s: StorageView,
    node_id: NodeId,
    control_addr: Seq<char>,
    bulk_addr: Seq<char>,
    log_id: LogId,
)
    requires
        sound(s.meta),
    ensures
        sound(
            applied_state(
                s,
                register_node_decision(s.meta, node_id, control_addr, bulk_addr),
                log_id,
            ).meta,
        ),
{
    let d = register_node_decision(s.meta, node_id, control_addr, bulk_addr);
    if let Decision::Decided(r, muts) = d {
        if r != ResultView::Applied {
            assert(d == no_change(r));
            lemma_no_change_sound(s, r, log_id);
        } else {
            let entry = muts[0]->entry;
            let m = MutationView::PutNode { entry };
            assert(d == applied(m));
            assert forall|b: NodeId|
                b != entry.node_id && (#[trigger] s.meta.node(b)) is Some implies endpoints_apart(
                entry,
                s.meta.node(b)->0,
            ) by {
                lemma_slot(s.meta.nodes, b);
                let i = slot(s.meta.nodes, b);
                assert(s.meta.nodes[i].1 == s.meta.node(b)->0);
                assert(node_sound(b, s.meta.node(b)));
                assert(!endpoint_clash(s.meta.nodes[i].1, node_id, control_addr, bulk_addr));
            }
            lemma_put_node_sound(s.meta, entry);
            lemma_applied_sound(s, m, log_id);
        }
    }
}

proof fn lemma_set_node_state_sound(
    s: StorageView,
    node_id: NodeId,
    state: NodeState,
    incarnation: u64,
    log_id: LogId,
)
    requires
        sound(s.meta),
    ensures
        sound(
            applied_state(
                s,
                set_node_state_decision(s.meta, node_id, state, incarnation),
                log_id,
            ).meta,
        ),
{
    let d = set_node_state_decision(s.meta, node_id, state, incarnation);
    if let Decision::Decided(r, muts) = d {
        if r != ResultView::Applied {
            assert(d == no_change(r));
            lemma_no_change_sound(s, r, log_id);
        } else {
            let old_entry = s.meta.node(node_id)->0;
            let entry = NodeEntryView { state, incarnation, ..old_entry };
            let m = MutationView::PutNode { entry };
            assert(d == applied(m));
            assert(node_sound(node_id, s.meta.node(node_id)));
            lemma_slot(s.meta.nodes, node_id);
            assert forall|b: NodeId|
                b != entry.node_id && (#[trigger] s.meta.node(b)) is Some implies endpoints_apart(
                entry,
                s.meta.node(b)->0,
            ) by {
                assert(endpoints_apart(s.meta.node(node_id)->0, s.meta.node(b)->0));
            }
            assert(s.meta.cluster is Some);
            lemma_put_node_sound(s.meta, entry);
            lemma_applied_sound(s, m, log_id);
        }
    }
}

proof fn lemma_seed_placement_sound(
    s: StorageView,
    group: GroupId,
    voters: Seq<NodeId>,
    log_id: LogId,
)
    requires
        sound(s.meta),
    ensures
        sound(
            applied_state(s, seed_placement_decision(s.meta, group, voters, log_id), log_id).meta,
        ),
{
    let d = seed_placement_decision(s.meta, group, voters, log_id);
    if let Decision::Decided(r, muts) = d {
        if r != ResultView::Applied {
            assert(d == no_change(r));
            lemma_no_change_sound(s, r, log_id);
        } else {
            lemma_rising_exists(voters);
            lemma_distinct_count(voters);
            let placement = PlacementView {
                voters: rising_members(voters.to_set()),
                voters_log_id: log_id,
                move_plan: None,
            };
            let m = MutationView::PutPlacement { group, placement };
            assert(d == applied(m));
            lemma_put_placement_sound(s.meta, group, placement);
            lemma_applied_sound(s, m, log_id);
        }
    }
}

proof fn lemma_create_plan_sound(
    s: StorageView,
    group: GroupId,
    target_voters: Seq<NodeId>,
    log_id: LogId,
)
    requires
        sound(s.meta),
    ensures
        sound(
            applied_state(
                s,
                create_plan_decision(s.meta, group, target_voters, log_id),
                log_id,
            ).meta,
        ),
{
    let d = create_plan_decision(s.meta, group, target_voters, log_id);
    if let Decision::Decided(r, muts) = d {
        if r != ResultView::Applied {
            assert(d == no_change(r));
            lemma_no_change_sound(s, r, log_id);
        } else {
            lemma_rising_exists(target_voters);
            lemma_distinct_count(target_voters);
            let current = s.meta.placement(group)->0;
            assert(group_sound(s.meta.cluster->0, group, s.meta.placement(group)));
            let placement = PlacementView {
                move_plan: Some(
                    MovePlanView {
                        plan_id: log_id.index,
                        target_voters: rising_members(target_voters.to_set()),
                        aborting: false,
                    },
                ),
                ..current
            };
            let m = MutationView::PutPlacement { group, placement };
            assert(d == applied(m));
            lemma_put_placement_sound(s.meta, group, placement);
            lemma_applied_sound(s, m, log_id);
        }
    }
}

proof fn lemma_mark_aborting_sound(s: StorageView, group: GroupId, plan_id: u64, log_id: LogId)
    requires
        sound(s.meta),
    ensures
        sound(applied_state(s, mark_aborting_decision(s.meta, group, plan_id), log_id).meta),
{
    let d = mark_aborting_decision(s.meta, group, plan_id);
    if let Decision::Decided(r, muts) = d {
        if r != ResultView::Applied {
            assert(d == no_change(r));
            lemma_no_change_sound(s, r, log_id);
        } else {
            let current = s.meta.placement(group)->0;
            lemma_slot(s.meta.placements, group);
            assert(s.meta.cluster is Some);
            assert(group_sound(s.meta.cluster->0, group, s.meta.placement(group)));
            let plan = current.move_plan->0;
            let placement = PlacementView {
                move_plan: Some(MovePlanView { aborting: true, ..plan }),
                ..current
            };
            let m = MutationView::PutPlacement { group, placement };
            assert(d == applied(m));
            lemma_put_placement_sound(s.meta, group, placement);
            lemma_applied_sound(s, m, log_id);
        }
    }
}

proof fn lemma_finalize_plan_sound(
    s: StorageView,
    group: GroupId,
    plan_id: u64,
    observation: ObservationView,
    is_abort: bool,
    log_id: LogId,
)
    requires
        sound(s.meta),
    ensures
        sound(
            applied_state(
                s,
                finalize_plan_decision(s.meta, group, plan_id, observation, is_abort),
                log_id,
            ).meta,
        ),
{
    let d = finalize_plan_decision(s.meta, group, plan_id, observation, is_abort);
    if let Decision::Decided(r, muts) = d {
        if r != ResultView::Applied {
            assert(d == no_change(r));
            lemma_no_change_sound(s, r, log_id);
        } else {
            let current = s.meta.placement(group)->0;
            lemma_slot(s.meta.placements, group);
            assert(s.meta.cluster is Some);
            assert(group_sound(s.meta.cluster->0, group, s.meta.placement(group)));
            let plan = current.move_plan->0;
            let voters = settled_voters(
                current,
                plan,
                observation.voter_set.to_set(),
                is_abort,
            )->0;
            lemma_sorted_rising(voters);
            let placement = PlacementView {
                voters: sorted(voters),
                voters_log_id: observation.config_log_id,
                move_plan: None,
            };
            let m = MutationView::PutPlacement { group, placement };
            assert(d == applied(m));
            lemma_put_placement_sound(s.meta, group, placement);
            lemma_applied_sound(s, m, log_id);
        }
    }
}

proof fn lemma_stored_sound(s: StorageView, record: RecordView, log_id: LogId)
    requires
        sound(s.meta),
        s.meta.cluster is Some,
        s.meta.index(record.name) is Some || s.meta.indexes.len() < SEARCH_MAX_INDEXES,
    ensures
        sound(applied_state(s, stored(record), log_id).meta),
{
    if record.defect() is Some {
        lemma_no_change_sound(
            s,
            ResultView::Rejected(RejectView::InvalidConfig(record.defect()->0.text())),
            log_id,
        );
    } else {
        let m = MutationView::PutIndex { record };
        let none = Seq::<MutationView>::empty();
        assert(seq![m] + none =~= seq![m]);
        lemma_store_record_sound(s.meta, record, none, record.name, 0);
        lemma_after_one(s.meta, m);
        lemma_applied_sound(s, m, log_id);
    }
}

proof fn lemma_stored_with_deletes_sound(
    s: StorageView,
    record: RecordView,
    deletes: Seq<MutationView>,
    name: Seq<char>,
    generation: u64,
    log_id: LogId,
)
    requires
        sound(s.meta),
        s.meta.cluster is Some,
        s.meta.index(record.name) is Some,
        deletes == Seq::<MutationView>::empty() || deletes == claim_deletes(
            s.meta.ready,
            name,
            generation,
        ),
    ensures
        sound(applied_state(s, stored_with_deletes(record, deletes), log_id).meta),
{
    if record.defect() is Some {
        lemma_no_change_sound(
            s,
            ResultView::Rejected(RejectView::InvalidConfig(record.defect()->0.text())),
            log_id,
        );
    } else {
        let muts = seq![MutationView::PutIndex { record }] + deletes;
        lemma_store_record_sound(s.meta, record, deletes, name, generation);
        lemma_position_only(
            after_all(s.meta, muts),
            applied_state(s, stored_with_deletes(record, deletes), log_id).meta,
            log_id,
        );
    }
}

proof fn lemma_create_search_index_sound(
    s: StorageView,
    name: Seq<char>,
    definition: DefinitionView,
    engine_revision: u32,
    log_id: LogId,
    update: bool,
)
    requires
        sound(s.meta),
    ensures
        ({
            let d = create_search_index_decision(
                s.meta,
                name,
                definition,
                engine_revision,
                log_id,
                update,
            );
            sound(applied_state(s, d, log_id).meta) && !(d is Failed)
        }),
{
    let d = create_search_index_decision(
        s.meta,
        name,
        definition,
        engine_revision,
        log_id,
        update,
    );
    assert(index_sound(name, s.meta.index(name)));
    if let Decision::Decided(r, muts) = d {
        if r != ResultView::Applied {
            assert(d == no_change(r));
            lemma_no_change_sound(s, r, log_id);
        } else {
            let generation = crate::search::generation_of(
                log_id.index,
                engine_revision,
                definition,
            )->Ok_0;
            match s.meta.index(name) {
                None => {
                    let record = RecordView {
                        name,
                        active: None,
                        building: Some(generation),
                        retiring: Seq::empty(),
                    };
                    assert(d == stored(record));
                    lemma_stored_sound(s, record, log_id);
                },
                Some(found) => {
                    let record = RecordView { building: Some(generation), ..found };
                    assert(d == stored(record));
                    lemma_stored_sound(s, record, log_id);
                },
            }
        }
    }
}

proof fn lemma_report_search_ready_sound(
    s: StorageView,
    name: Seq<char>,
    claim: SearchIndexReady,
    log_id: LogId,
)
    requires
        sound(s.meta),
    ensures
        ({
            let d = report_search_ready_decision(s.meta, name, claim);
            sound(applied_state(s, d, log_id).meta) && !(d is Failed)
        }),
{
    let d = report_search_ready_decision(s.meta, name, claim);
    assert(index_sound(name, s.meta.index(name)));
    if let Decision::Decided(r, muts) = d {
        if r != ResultView::Applied {
            assert(d == no_change(r));
            lemma_no_change_sound(s, r, log_id);
        } else {
            let m = MutationView::PutReady { name, claim };
            assert(d == applied(m));
            let t = m.after(s.meta);
            lemma_mutation_well_formed(s.meta, m);
            assert forall|n: Seq<char>| index_sound(n, #[trigger] t.index(n)) by {
                assert(t.index(n) == s.meta.index(n));
            }
            lemma_catalog_sound(s.meta, t);
            lemma_applied_sound(s, m, log_id);
        }
    }
}

proof fn lemma_index_needs_cluster(s: MetaView, name: Seq<char>)
    requires
        sound(s),
        s.index(name) is Some,
    ensures
        s.cluster is Some,
{
    lemma_slot(s.indexes, name);
}

proof fn lemma_activate_sound(s: StorageView, name: Seq<char>, generation: u64, log_id: LogId)
    requires
        sound(s.meta),
    ensures
        ({
            let d = activate_search_generation_decision(s.meta, name, generation);
            sound(applied_state(s, d, log_id).meta) && !(d is Failed)
        }),
{
    let d = activate_search_generation_decision(s.meta, name, generation);
    assert(index_sound(name, s.meta.index(name)));
    if let Decision::Decided(r, muts) = d {
        if r != ResultView::Applied {
            assert(d == no_change(r));
            lemma_no_change_sound(s, r, log_id);
        } else {
            let record = s.meta.index(name)->0;
            let b = record.building->0;
            let next = RecordView {
                active: Some(b),
                building: None,
                retiring: match record.active {
                    Some(a) => with_id(record.retiring, a.id),
                    None => record.retiring,
                },
                ..record
            };
            let deletes = claim_deletes(s.meta.ready, record.name, b.id);
            assert(d == activation(s.meta, record, b));
            assert(d == stored_with_deletes(next, deletes));
            lemma_stored_with_deletes_sound(s, next, deletes, record.name, b.id, log_id);
        }
    }
}

proof fn lemma_drop_sound(s: StorageView, name: Seq<char>, log_id: LogId)
    requires
        sound(s.meta),
    ensures
        ({
            let d = drop_search_index_decision(s.meta, name);
            sound(applied_state(s, d, log_id).meta) && !(d is Failed)
        }),
{
    let d = drop_search_index_decision(s.meta, name);
    assert(index_sound(name, s.meta.index(name)));
    if let Decision::Decided(r, muts) = d {
        if r != ResultView::Applied {
            assert(d == no_change(r));
            lemma_no_change_sound(s, r, log_id);
        } else {
            lemma_index_needs_cluster(s.meta, name);
            let record = s.meta.index(name)->0;
            let next = RecordView {
                active: None,
                building: None,
                retiring: dropped_retiring(record),
                ..record
            };
            match record.building {
                Some(b) => {
                    let deletes = claim_deletes(s.meta.ready, record.name, b.id);
                    assert(d == stored_with_deletes(next, deletes));
                    lemma_stored_with_deletes_sound(s, next, deletes, record.name, b.id, log_id);
                },
                None => {
                    let deletes = Seq::<MutationView>::empty();
                    assert(d == stored_with_deletes(next, deletes));
                    lemma_stored_with_deletes_sound(s, next, deletes, record.name, 0, log_id);
                },
            }
        }
    }
}

proof fn lemma_without_len(s: Seq<u64>, id: u64)
    ensures
        without(s, id).len() <= s.len(),
        !without(s, id).contains(id),
        !s.contains(id) ==> without(s, id) == s,
        s.contains(id) ==> without(s, id).len() < s.len(),
        forall|x: u64| x != id ==> (without(s, id).contains(x) <==> #[trigger] s.contains(x)),
    decreases s.len(),
{
    if s.len() > 0 {
        let head = s.drop_last();
        let rest = without(head, id);
        lemma_without_len(head, id);
        assert forall|x: u64| #[trigger] s.contains(x) == (head.contains(x) || s.last() == x) by {
            if head.contains(x) {
                let i = head.index_of(x);
                assert(s[i] == x);
            }
            if s.last() == x {
                assert(s[s.len() - 1] == x);
            }
            if s.contains(x) {
                let i = s.index_of(x);
                if i < head.len() {
                    assert(head[i] == x);
                }
            }
        }
        let t = without(s, id);
        if s.last() != id {
            assert forall|x: u64| t.contains(x) == (rest.contains(x) || s.last() == x) by {
                if rest.contains(x) {
                    let i = rest.index_of(x);
                    assert(t[i] == x);
                }
                if s.last() == x {
                    assert(t[rest.len() as int] == x);
                }
                if t.contains(x) {
                    let i = t.index_of(x);
                    if i < rest.len() {
                        assert(rest[i] == x);
                    }
                }
            }
            if !s.contains(id) {
                assert(!head.contains(id));
                assert(t =~= s);
            }
        } else {
            assert(s.contains(id));
        }
    }
}

proof fn lemma_finalize_drop_sound(s: StorageView, name: Seq<char>, generation: u64, log_id: LogId)
    requires
        sound(s.meta),
    ensures
        ({
            let d = finalize_search_drop_decision(s.meta, name, generation);
            sound(applied_state(s, d, log_id).meta) && !(d is Failed)
        }),
{
    let d = finalize_search_drop_decision(s.meta, name, generation);
    assert(index_sound(name, s.meta.index(name)));
    if let Decision::Decided(r, muts) = d {
        if r != ResultView::Applied {
            assert(d == no_change(r));
            lemma_no_change_sound(s, r, log_id);
        } else {
            lemma_index_needs_cluster(s.meta, name);
            let record = s.meta.index(name)->0;
            let left = without(record.retiring, generation);
            lemma_without_len(record.retiring, generation);
            if record.active is None && record.building is None && left.len() == 0 {
                let m = MutationView::DeleteIndex { name };
                assert(d == applied(m));
                let t = m.after(s.meta);
                lemma_mutation_well_formed(s.meta, m);
                lemma_del(s.meta.indexes, name);
                lemma_slot(s.meta.indexes, name);
                assert forall|n: Seq<char>| index_sound(n, #[trigger] t.index(n)) by {
                    if n != name {
                        assert(t.index(n) == s.meta.index(n));
                    }
                }
                lemma_catalog_sound(s.meta, t);
                lemma_applied_sound(s, m, log_id);
            } else {
                let next = RecordView { retiring: left, ..record };
                assert(d == stored(next));
                lemma_stored_sound(s, next, log_id);
            }
        }
    }
}

/// The invariant holds after every command, and no command ever fails on a
/// state that has it: from a fresh node on, no two nodes share an endpoint, the
/// directory and the catalog keep their limits, and every placement has the
/// voters it should.
pub proof fn law_commands_keep_sound(s: StorageView, cmd: MetaCommandView, log_id: LogId)
    requires
        sound(s.meta),
    ensures
        sound(applied_state(s, decide(s, cmd, log_id), log_id).meta),
        !(decide(s, cmd, log_id) is Failed),
{
    match cmd {
        MetaCommandView::ClusterInit { config, meta_voters } => {
            lemma_cluster_init_sound(s, config, meta_voters, log_id);
        },
        MetaCommandView::RegisterNode { node_id, control_addr, bulk_addr } => {
            lemma_register_node_sound(s, node_id, control_addr, bulk_addr, log_id);
        },
        MetaCommandView::SeedPlacement { group, voters } => {
            lemma_seed_placement_sound(s, group, voters, log_id);
        },
        MetaCommandView::SetNodeState { node_id, state, incarnation } => {
            lemma_set_node_state_sound(s, node_id, state, incarnation, log_id);
        },
        MetaCommandView::CreatePlan { group, plan_id, target_voters } => {
            lemma_create_plan_sound(s, group, target_voters, log_id);
        },
        MetaCommandView::MarkAborting { group, plan_id } => {
            lemma_mark_aborting_sound(s, group, plan_id, log_id);
        },
        MetaCommandView::FinalizePlan { group, plan_id, observation } => {
            lemma_finalize_plan_sound(s, group, plan_id, observation, false, log_id);
        },
        MetaCommandView::AbortReport { group, plan_id, observation } => {
            lemma_finalize_plan_sound(s, group, plan_id, observation, true, log_id);
        },
        MetaCommandView::CreateSearchIndex { name, definition } => {
            lemma_create_search_index_sound(
                s,
                name,
                definition,
                crate::meta::state_machine::LEGACY_SEARCH_ENGINE_REVISION,
                log_id,
                false,
            );
        },
        MetaCommandView::CreateSearchIndexGeneration { name, definition } => {
            lemma_create_search_index_sound(
                s,
                name,
                definition,
                crate::meta::state_machine::LEGACY_SEARCH_ENGINE_REVISION,
                log_id,
                true,
            );
        },
        MetaCommandView::ReportSearchIndexReady { name, observation } => {
            lemma_report_search_ready_sound(s, name, observation, log_id);
        },
        MetaCommandView::ActivateSearchIndexGeneration { name, generation } => {
            lemma_activate_sound(s, name, generation, log_id);
        },
        MetaCommandView::DropSearchIndex { name } => {
            lemma_drop_sound(s, name, log_id);
        },
        MetaCommandView::FinalizeSearchIndexDrop { name, generation } => {
            lemma_finalize_drop_sound(s, name, generation, log_id);
        },
        MetaCommandView::CreateSearchIndexWithRevision { name, definition, engine_revision } => {
            lemma_create_search_index_sound(s, name, definition, engine_revision, log_id, false);
        },
        MetaCommandView::CreateSearchIndexGenerationWithRevision {
            name,
            definition,
            engine_revision,
        } => {
            lemma_create_search_index_sound(s, name, definition, engine_revision, log_id, true);
        },
    }
}

// -- how the commands relate ------------------------------------------------

/// A refused command and a retry change no record.
pub proof fn law_only_applied_changes(s: StorageView, cmd: MetaCommandView, log_id: LogId)
    ensures
        decide(s, cmd, log_id) matches Decision::Decided(r, muts) ==> r != ResultView::Applied
            ==> muts.len() == 0 && applied_state(s, decide(s, cmd, log_id), log_id).meta == (
        MetaView { last_applied: Some(log_id), ..s.meta }),
{
    if let Decision::Decided(r, muts) = decide(s, cmd, log_id) {
        if r != ResultView::Applied {
            assert(muts.len() == 0);
            assert(after_all(s.meta, muts) == s.meta);
        }
    }
}

pub(crate) proof fn lemma_applied_is(s: StorageView, m: MutationView, log_id: LogId)
    ensures
        applied_state(s, applied(m), log_id) == (StorageView {
            meta: MetaView { last_applied: Some(log_id), ..m.after(s.meta) },
            ..s
        }),
{
    lemma_after_one(s.meta, m);
}

/// The decision to store one directory entry.
pub open spec fn stores_entry(entry: NodeEntryView) -> Decision {
    applied(MutationView::PutNode { entry })
}

/// The decision to store one placement.
pub open spec fn stores_placement(group: GroupId, placement: PlacementView) -> Decision {
    applied(MutationView::PutPlacement { group, placement })
}

/// The only changes a command makes to the directory, the placements and the
/// cluster record: at most one entry, at most one placement, and the record
/// only where there was none.
proof fn lemma_core_change(s: StorageView, cmd: MetaCommandView, log_id: LogId)
    ensures
        ({
            let d = decide(s, cmd, log_id);
            let t = applied_state(s, d, log_id).meta;
            &&& t.nodes == s.meta.nodes || (exists|e: NodeEntryView|
                d == #[trigger] stores_entry(e))
            &&& t.placements == s.meta.placements || cmd is ClusterInit || (exists|
                g: GroupId,
                p: PlacementView,
            |
                d == #[trigger] stores_placement(g, p))
            &&& s.meta.cluster is Some ==> t.cluster == s.meta.cluster
            &&& s.meta.cluster is Some && cmd is ClusterInit ==> t.placements == s.meta.placements
        }),
{
    let d = decide(s, cmd, log_id);
    let t = applied_state(s, d, log_id).meta;
    law_only_applied_changes(s, cmd, log_id);
    if let Decision::Decided(r, muts) = d {
        if r == ResultView::Applied {
            match cmd {
                MetaCommandView::ClusterInit { config, meta_voters } => {
                    let a = muts[0];
                    let b = muts[1];
                    assert(muts =~= seq![a] + seq![b]);
                    lemma_after_append(s.meta, seq![a], seq![b]);
                    lemma_after_one(s.meta, a);
                    lemma_after_one(a.after(s.meta), b);
                },
                MetaCommandView::ActivateSearchIndexGeneration { name, generation } => {
                    let record = s.meta.index(name)->0;
                    let b = record.building->0;
                    let deletes = claim_deletes(s.meta.ready, record.name, b.id);
                    let m = muts[0];
                    assert(muts =~= seq![m] + deletes);
                    lemma_after_append(s.meta, seq![m], deletes);
                    lemma_after_one(s.meta, m);
                    lemma_deletes_frame(m.after(s.meta), s.meta.ready, record.name, b.id);
                },
                MetaCommandView::DropSearchIndex { name } => {
                    let record = s.meta.index(name)->0;
                    let m = muts[0];
                    match record.building {
                        Some(b) => {
                            let deletes = claim_deletes(s.meta.ready, record.name, b.id);
                            assert(muts =~= seq![m] + deletes);
                            lemma_after_append(s.meta, seq![m], deletes);
                            lemma_after_one(s.meta, m);
                            lemma_deletes_frame(m.after(s.meta), s.meta.ready, record.name, b.id);
                        },
                        None => {
                            assert(muts =~= seq![m]);
                            lemma_after_one(s.meta, m);
                        },
                    }
                },
                _ => {
                    let m = muts[0];
                    assert(muts =~= seq![m]);
                    assert(d == applied(m));
                    lemma_after_one(s.meta, m);
                    match m {
                        MutationView::PutNode { entry } => {
                            assert(d == stores_entry(entry));
                        },
                        MutationView::PutPlacement { group, placement } => {
                            assert(d == stores_placement(group, placement));
                        },
                        _ => {},
                    }
                },
            }
        }
    }
}

/// The cluster record is written once and never changes.
pub proof fn law_cluster_record_is_immutable(s: StorageView, cmd: MetaCommandView, log_id: LogId)
    requires
        s.meta.cluster is Some,
    ensures
        applied_state(s, decide(s, cmd, log_id), log_id).meta.cluster == s.meta.cluster,
{
    lemma_core_change(s, cmd, log_id);
}

/// A directory entry stays, its incarnation never falls, and a node that is
/// down comes back only with a strictly newer incarnation.
pub proof fn law_incarnations_never_fall(
    s: StorageView,
    cmd: MetaCommandView,
    log_id: LogId,
    id: NodeId,
)
    requires
        s.meta.well_formed(),
        s.meta.node(id) is Some,
    ensures
        ({
            let before = s.meta.node(id)->0;
            let t = applied_state(s, decide(s, cmd, log_id), log_id).meta;
            &&& t.node(id) is Some
            &&& t.node(id)->0.incarnation >= before.incarnation
            &&& before.state == NodeState::Down && t.node(id)->0.state != NodeState::Down
                ==> t.node(id)->0.incarnation > before.incarnation
        }),
{
    let d = decide(s, cmd, log_id);
    let t = applied_state(s, d, log_id).meta;
    lemma_core_change(s, cmd, log_id);
    if t.nodes == s.meta.nodes {
        assert(t.node(id) == s.meta.node(id));
    } else {
        let e = choose|e: NodeEntryView|
            d == #[trigger] stores_entry(e);
        let m = MutationView::PutNode { entry: e };
        assert(d == applied(m));
        lemma_applied_is(s, m, log_id);
        lemma_put_ranked(s.meta.nodes, e.node_id, e);
        lemma_slot(s.meta.nodes, e.node_id);
        if e.node_id != id {
            assert(t.node(id) == s.meta.node(id));
        } else {
            assert(t.node(id) == Some(e));
            lemma_same_change(d, m);
            if let MetaCommandView::SetNodeState { node_id, state, incarnation } = cmd {
                lemma_slot(s.meta.nodes, node_id);
                let i = slot(s.meta.nodes, node_id);
                assert(s.meta.nodes[i].1.node_id == node_id);
            }
        }
    }
}

/// A decision has one change list.
proof fn lemma_same_change(d: Decision, m: MutationView)
    requires
        d == applied(m),
    ensures
        d matches Decision::Decided(r, muts) && r == ResultView::Applied && muts.len() == 1
            && muts[0] == m,
{
}

/// A group's committed voters change only when a plan of that group is
/// resolved, and then to the plan's target.
pub proof fn law_voters_change_only_by_resolution(
    s: StorageView,
    cmd: MetaCommandView,
    log_id: LogId,
    group: GroupId,
)
    requires
        sound(s.meta),
        s.meta.placement(group) is Some,
    ensures
        ({
            let before = s.meta.placement(group)->0;
            let t = applied_state(s, decide(s, cmd, log_id), log_id).meta;
            &&& t.placement(group) is Some
            &&& t.placement(group)->0.voters != before.voters ==> {
                &&& cmd is FinalizePlan || cmd is AbortReport
                &&& before.move_plan matches Some(plan) && t.placement(group)->0.voters
                    == plan.target_voters
                &&& t.placement(group)->0.move_plan is None
            }
        }),
{
    let d = decide(s, cmd, log_id);
    let t = applied_state(s, d, log_id).meta;
    let before = s.meta.placement(group)->0;
    lemma_core_change(s, cmd, log_id);
    lemma_slot(s.meta.placements, group);
    assert(s.meta.cluster is Some);
    assert(group_sound(s.meta.cluster->0, group, s.meta.placement(group)));
    if t.placements == s.meta.placements {
        assert(t.placement(group) == s.meta.placement(group));
    } else {
        let (g, p) = choose|g: GroupId, p: PlacementView|
            d == #[trigger] stores_placement(g, p);
        let m = MutationView::PutPlacement { group: g, placement: p };
        assert(d == applied(m));
        lemma_applied_is(s, m, log_id);
        lemma_put(s.meta.placements, g, p);
        lemma_same_change(d, m);
        if g != group {
            assert(t.placement(group) == s.meta.placement(group));
        } else {
            assert(t.placement(group) == Some(p));
            match cmd {
                MetaCommandView::FinalizePlan { group: h, plan_id, observation } => {
                    let plan = before.move_plan->0;
                    lemma_sorted_rising(plan.target_voters);
                    lemma_sorted_rising(before.voters);
                },
                MetaCommandView::AbortReport { group: h, plan_id, observation } => {
                    let plan = before.move_plan->0;
                    lemma_sorted_rising(plan.target_voters);
                    lemma_sorted_rising(before.voters);
                },
                _ => {},
            }
        }
    }
}

/// Founding a cluster twice is harmless: the same command again changes
/// nothing, and a different configuration is refused.
pub proof fn law_cluster_init_retry(
    s: StorageView,
    config: ClusterConfig,
    meta_voters: Seq<NodeId>,
    log_id: LogId,
    other: ClusterConfig,
    later: LogId,
)
    requires
        cluster_init_decision(s, config, meta_voters, log_id) matches Decision::Decided(r, _)
            && r == ResultView::Applied,
    ensures
        ({
            let t = applied_state(s, cluster_init_decision(s, config, meta_voters, log_id), log_id);
            &&& cluster_init_decision(t, config, meta_voters, later) == no_change(ResultView::NoOp)
            &&& other != config ==> cluster_init_decision(t, other, meta_voters, later) == refused(
                RejectView::ClusterConflict,
            )
        }),
{
    let d = cluster_init_decision(s, config, meta_voters, log_id);
    let t = applied_state(s, d, log_id);
    if let Decision::Decided(r, muts) = d {
        let a = muts[0];
        let b = muts[1];
        assert(muts =~= seq![a] + seq![b]);
        lemma_after_append(s.meta, seq![a], seq![b]);
        lemma_after_one(s.meta, a);
        lemma_after_one(a.after(s.meta), b);
        lemma_rising_exists(meta_voters);
        let placement = PlacementView {
            voters: rising_members(meta_voters.to_set()),
            voters_log_id: log_id,
            move_plan: None,
        };
        lemma_put(a.after(s.meta).placements, GroupId::Meta, placement);
        assert(t.meta.placement(GroupId::Meta) == Some(placement));
    }
}

/// Registering twice is harmless: the same command again changes nothing.
pub proof fn law_register_node_retry(
    s: StorageView,
    node_id: NodeId,
    control_addr: Seq<char>,
    bulk_addr: Seq<char>,
    log_id: LogId,
)
    requires
        sound(s.meta),
        register_node_decision(s.meta, node_id, control_addr, bulk_addr) matches Decision::Decided(
            r,
            _,
        ) && r == ResultView::Applied,
    ensures
        ({
            let t = applied_state(
                s,
                register_node_decision(s.meta, node_id, control_addr, bulk_addr),
                log_id,
            );
            &&& t.meta.node(node_id) matches Some(e) && e.state == NodeState::Active
                && e.control_addr == control_addr && e.bulk_addr == bulk_addr
            &&& register_node_decision(t.meta, node_id, control_addr, bulk_addr) == no_change(
                ResultView::NoOp,
            )
        }),
{
    let d = register_node_decision(s.meta, node_id, control_addr, bulk_addr);
    let t = applied_state(s, d, log_id);
    if let Decision::Decided(r, muts) = d {
        let entry = muts[0]->entry;
        let m = MutationView::PutNode { entry };
        assert(d == applied(m));
        lemma_applied_is(s, m, log_id);
        lemma_put_ranked(s.meta.nodes, node_id, entry);
        lemma_register_node_sound(s, node_id, control_addr, bulk_addr, log_id);
        lemma_slot(t.meta.nodes, node_id);
        lemma_own_endpoints_free(t.meta, node_id);
    }
}

/// In a list with rising keys every entry is found under its key.
proof fn lemma_rising_slot<V>(s: Seq<(u64, V)>, i: int)
    requires
        crate::assoc::keys_rise(s),
        0 <= i < s.len(),
    ensures
        slot(s, s[i].0) == i,
        get(s, s[i].0) == Some(s[i].1),
{
    assert forall|j: int| 0 <= j < i implies (#[trigger] s[j]).0 != s[i].0 by {
        assert(s[j].0 < s[i].0);
    }
    crate::assoc::lemma_slot_is(s, s[i].0, i);
}

/// Seeding a placement twice is harmless while its voters stay active.
pub proof fn law_seed_placement_retry(
    s: StorageView,
    group: GroupId,
    voters: Seq<NodeId>,
    log_id: LogId,
    later: LogId,
)
    requires
        seed_placement_decision(s.meta, group, voters, log_id) matches Decision::Decided(r, _) && r
            == ResultView::Applied,
    ensures
        ({
            let t = applied_state(
                s,
                seed_placement_decision(s.meta, group, voters, log_id),
                log_id,
            );
            seed_placement_decision(t.meta, group, voters, later) == no_change(ResultView::NoOp)
        }),
{
    let d = seed_placement_decision(s.meta, group, voters, log_id);
    let t = applied_state(s, d, log_id);
    if let Decision::Decided(r, muts) = d {
        let placement = PlacementView {
            voters: rising_members(voters.to_set()),
            voters_log_id: log_id,
            move_plan: None,
        };
        let m = MutationView::PutPlacement { group, placement };
        assert(d == applied(m));
        lemma_applied_is(s, m, log_id);
        lemma_put(s.meta.placements, group, placement);
        lemma_rising_exists(voters);
        assert(t.meta.placement(group) == Some(placement));
        assert forall|i: int| 0 <= i < voters.len() implies is_active(
            t.meta,
            #[trigger] voters[i],
        ) by {
            assert(is_active(s.meta, voters[i]));
            assert(t.meta.node(voters[i]) == s.meta.node(voters[i]));
        }
    }
}

// -- seeding a cluster --------------------------------------------------------

/// Whether a command is one of those that seed a cluster.
pub open spec fn is_seed(cmd: MetaCommandView) -> bool {
    cmd is ClusterInit || cmd is RegisterNode || cmd is SeedPlacement
}

/// Whether two commands do not register one node with different endpoints.
pub open spec fn agree(a: MetaCommandView, b: MetaCommandView) -> bool {
    match (a, b) {
        (
            MetaCommandView::RegisterNode { node_id: x, control_addr: c, bulk_addr: d },
            MetaCommandView::RegisterNode { node_id: y, control_addr: e, bulk_addr: f },
        ) => x == y ==> c == e && d == f,
        _ => true,
    }
}

/// Whether a decision accepts a command, freshly or as a retry.
pub open spec fn accepts(d: Decision) -> bool {
    d matches Decision::Decided(r, _) && (r == ResultView::Applied || r == ResultView::NoOp)
}

/// Whether a command would change nothing, at whatever position.
pub open spec fn settled(s: StorageView, cmd: MetaCommandView) -> bool {
    forall|l: LogId| #[trigger] decide(s, cmd, l) == no_change(ResultView::NoOp)
}

/// The records after the first of some commands, each at its position.
pub open spec fn after_first(
    s: StorageView,
    cmds: Seq<MetaCommandView>,
    at: Seq<LogId>,
    n: int,
) -> StorageView
    decreases n,
{
    if n <= 0 {
        s
    } else {
        let t = after_first(s, cmds, at, n - 1);
        applied_state(t, decide(t, cmds[n - 1], at[n - 1]), at[n - 1])
    }
}

/// A seed command that was accepted is settled.
proof fn lemma_seed_settles(s: StorageView, cmd: MetaCommandView, log_id: LogId)
    requires
        sound(s.meta),
        is_seed(cmd),
        accepts(decide(s, cmd, log_id)),
    ensures
        settled(applied_state(s, decide(s, cmd, log_id), log_id), cmd),
{
    let t = applied_state(s, decide(s, cmd, log_id), log_id);
    law_only_applied_changes(s, cmd, log_id);
    assert forall|l: LogId| #[trigger] decide(t, cmd, l) == no_change(ResultView::NoOp) by {
        match cmd {
            MetaCommandView::ClusterInit { config, meta_voters } => {
                if s.meta.cluster is None {
                    law_cluster_init_retry(s, config, meta_voters, log_id, config, l);
                } else {
                    assert(t.meta.placement(GroupId::Meta) == s.meta.placement(GroupId::Meta));
                }
            },
            MetaCommandView::RegisterNode { node_id, control_addr, bulk_addr } => {
                if decide(s, cmd, log_id) == no_change(ResultView::NoOp) {
                    assert(t.meta.node(node_id) == s.meta.node(node_id));
                    assert(endpoint_taken(t.meta, node_id, control_addr, bulk_addr)
                        == endpoint_taken(s.meta, node_id, control_addr, bulk_addr));
                } else {
                    law_register_node_retry(s, node_id, control_addr, bulk_addr, log_id);
                }
            },
            MetaCommandView::SeedPlacement { group, voters } => {
                if decide(s, cmd, log_id) == no_change(ResultView::NoOp) {
                    lemma_same_nodes_active(s.meta, t.meta, voters);
                    assert(t.meta.placement(group) == s.meta.placement(group));
                } else {
                    law_seed_placement_retry(s, group, voters, log_id, l);
                }
            },
            _ => {},
        }
    }
}

/// Where the directory is the same, the same voters are active.
proof fn lemma_same_nodes_active(s: MetaView, t: MetaView, voters: Seq<NodeId>)
    requires
        s.nodes == t.nodes,
    ensures
        forall|i: int|
            0 <= i < voters.len() ==> is_active(t, #[trigger] voters[i]) == is_active(s, voters[i]),
{
    assert forall|i: int| 0 <= i < voters.len() implies is_active(t, #[trigger] voters[i])
        == is_active(s, voters[i]) by {
        assert(t.node(voters[i]) == s.node(voters[i]));
    }
}

/// A seed command that is settled stays so through another one.
proof fn lemma_seed_stays(
    s: StorageView,
    cmd: MetaCommandView,
    other: MetaCommandView,
    log_id: LogId,
)
    requires
        sound(s.meta),
        is_seed(cmd),
        is_seed(other),
        agree(cmd, other),
        settled(s, cmd),
        accepts(decide(s, other, log_id)),
    ensures
        settled(applied_state(s, decide(s, other, log_id), log_id), cmd),
{
    let d = decide(s, other, log_id);
    let t = applied_state(s, d, log_id);
    assert(decide(s, cmd, log_id) == no_change(ResultView::NoOp));
    law_only_applied_changes(s, other, log_id);
    law_commands_keep_sound(s, other, log_id);
    law_cluster_record_is_immutable(s, other, log_id);
    match other {
        MetaCommandView::ClusterInit { .. } => {
            assert(t.meta.nodes == s.meta.nodes && t.meta.placements == s.meta.placements);
        },
        MetaCommandView::RegisterNode { node_id, control_addr, bulk_addr } => {
            if d != no_change(ResultView::NoOp) {
                let entry = d->Decided_1[0]->entry;
                let m = MutationView::PutNode { entry };
                assert(d == applied(m));
                lemma_applied_is(s, m, log_id);
                lemma_put_ranked(s.meta.nodes, node_id, entry);
                assert(t.meta.placements == s.meta.placements);
            }
        },
        MetaCommandView::SeedPlacement { group, voters } => {
            if d != no_change(ResultView::NoOp) {
                let placement = d->Decided_1[0]->placement;
                let m = MutationView::PutPlacement { group, placement };
                assert(d == applied(m));
                lemma_applied_is(s, m, log_id);
                lemma_put(s.meta.placements, group, placement);
                assert(t.meta.nodes == s.meta.nodes);
            }
        },
        _ => {},
    }
    assert forall|l: LogId| #[trigger] decide(t, cmd, l) == no_change(ResultView::NoOp) by {
        match cmd {
            MetaCommandView::ClusterInit { config, meta_voters } => {
                assert(t.meta.placement(GroupId::Meta) == s.meta.placement(GroupId::Meta));
            },
            MetaCommandView::RegisterNode { node_id, control_addr, bulk_addr } => {
                assert(t.meta.node(node_id) == s.meta.node(node_id));
                lemma_slot(t.meta.nodes, node_id);
                lemma_own_endpoints_free(t.meta, node_id);
            },
            MetaCommandView::SeedPlacement { group, voters } => {
                assert(t.meta.placement(group) == s.meta.placement(group));
                assert forall|i: int| 0 <= i < voters.len() implies is_active(
                    t.meta,
                    #[trigger] voters[i],
                ) by {
                    assert(is_active(s.meta, voters[i]));
                    assert(t.meta.node(voters[i]) == s.meta.node(voters[i]) || is_active(
                        t.meta,
                        voters[i],
                    ));
                }
            },
            _ => {},
        }
    }
}

/// No other node answers at the endpoints that a node is registered with.
proof fn lemma_own_endpoints_free(t: MetaView, node_id: NodeId)
    requires
        sound(t),
        t.node(node_id) is Some,
    ensures
        !endpoint_taken(
            t,
            node_id,
            t.node(node_id)->0.control_addr,
            t.node(node_id)->0.bulk_addr,
        ),
{
    let e = t.node(node_id)->0;
    assert forall|i: int| 0 <= i < t.nodes.len() implies !endpoint_clash(
        #[trigger] t.nodes[i].1,
        node_id,
        e.control_addr,
        e.bulk_addr,
    ) by {
        let other = t.nodes[i].0;
        lemma_rising_slot(t.nodes, i);
        assert(t.node(other) == Some(t.nodes[i].1));
        assert(node_sound(other, t.node(other)));
        if other != node_id {
            assert(endpoints_apart(t.node(node_id)->0, t.node(other)->0));
        }
    }
}

/// Seeding can be resumed: once every seed command was accepted, each of them
/// changes nothing when it is proposed again.
pub proof fn law_seeding_is_resumable(
    s: StorageView,
    cmds: Seq<MetaCommandView>,
    at: Seq<LogId>,
    n: int,
    i: int,
)
    requires
        sound(s.meta),
        0 <= i < n <= cmds.len(),
        at.len() == cmds.len(),
        forall|k: int| 0 <= k < n ==> is_seed(#[trigger] cmds[k]),
        forall|j: int, k: int|
            0 <= j < n && 0 <= k < n ==> agree(#[trigger] cmds[j], #[trigger] cmds[k]),
        forall|k: int|
            0 <= k < n ==> accepts(decide(#[trigger] after_first(s, cmds, at, k), cmds[k], at[k])),
    ensures
        sound(after_first(s, cmds, at, n).meta),
        settled(after_first(s, cmds, at, n), cmds[i]),
    decreases n,
{
    lemma_first_sound(s, cmds, at, n);
    lemma_first_sound(s, cmds, at, n - 1);
    let t = after_first(s, cmds, at, n - 1);
    if i == n - 1 {
        lemma_seed_settles(t, cmds[i], at[i]);
    } else {
        law_seeding_is_resumable(s, cmds, at, n - 1, i);
        assert(agree(cmds[i], cmds[n - 1]));
        lemma_seed_stays(t, cmds[i], cmds[n - 1], at[n - 1]);
    }
}

proof fn lemma_first_sound(
    s: StorageView,
    cmds: Seq<MetaCommandView>,
    at: Seq<LogId>,
    n: int,
)
    requires
        sound(s.meta),
    ensures
        sound(after_first(s, cmds, at, n).meta),
    decreases n,
{
    if n > 0 {
        lemma_first_sound(s, cmds, at, n - 1);
        law_commands_keep_sound(after_first(s, cmds, at, n - 1), cmds[n - 1], at[n - 1]);
    }
}

/// A healthy plan and an observation of its target: the group is placed on the
/// target and the plan is gone.
pub proof fn law_finalize_completes_the_move(
    s: StorageView,
    group: GroupId,
    observation: ObservationView,
    log_id: LogId,
)
    requires
        sound(s.meta),
        s.meta.placement(group) matches Some(p) && (p.move_plan matches Some(plan)
            && !plan.aborting && observation.group == group && observation.plan_id == plan.plan_id
            && observation.voter_set.to_set() == plan.target_voters.to_set()),
    ensures
        ({
            let plan = s.meta.placement(group)->0.move_plan->0;
            let d = decide(
                s,
                MetaCommandView::FinalizePlan { group, plan_id: plan.plan_id, observation },
                log_id,
            );
            applied_state(s, d, log_id).meta.placement(group) == Some(
                PlacementView {
                    voters: plan.target_voters,
                    voters_log_id: observation.config_log_id,
                    move_plan: None,
                },
            )
        }),
{
    let current = s.meta.placement(group)->0;
    let plan = current.move_plan->0;
    lemma_slot(s.meta.placements, group);
    assert(s.meta.cluster is Some);
    assert(group_sound(s.meta.cluster->0, group, s.meta.placement(group)));
    lemma_sorted_rising(plan.target_voters);
    let placement = PlacementView {
        voters: plan.target_voters,
        voters_log_id: observation.config_log_id,
        move_plan: None,
    };
    let m = MutationView::PutPlacement { group, placement };
    let d = finalize_plan_decision(s.meta, group, plan.plan_id, observation, false);
    assert(d == applied(m));
    lemma_applied_is(s, m, log_id);
    lemma_put(s.meta.placements, group, placement);
}

/// Start a move, mark it aborting, and report that nothing moved: the group
/// keeps its voters and the plan is gone. A finalize in between is refused.
pub proof fn law_abort_rolls_back(
    s: StorageView,
    group: GroupId,
    target_voters: Seq<NodeId>,
    created: LogId,
    marked: LogId,
    reported: LogId,
    observation: ObservationView,
)
    requires
        sound(s.meta),
        create_plan_decision(s.meta, group, target_voters, created) matches Decision::Decided(r, _)
            && r == ResultView::Applied,
        observation.group == group,
        observation.plan_id == created.index,
        s.meta.placement(group) matches Some(p) && observation.voter_set.to_set()
            == p.voters.to_set(),
    ensures
        ({
            let plan_id = created.index;
            let one = applied_state(
                s,
                create_plan_decision(s.meta, group, target_voters, created),
                created,
            );
            let early = finalize_plan_decision(one.meta, group, plan_id, observation, true);
            let two = applied_state(one, mark_aborting_decision(one.meta, group, plan_id), marked);
            let d = finalize_plan_decision(two.meta, group, plan_id, observation, true);
            let three = applied_state(two, d, reported);
            &&& early == refused(RejectView::NotAborting)
            &&& finalize_plan_decision(two.meta, group, plan_id, observation, false) == refused(
                RejectView::PlanAborting,
            )
            &&& mark_aborting_decision(two.meta, group, plan_id) == no_change(ResultView::NoOp)
            &&& three.meta.placement(group) == Some(
                PlacementView {
                    voters: s.meta.placement(group)->0.voters,
                    voters_log_id: observation.config_log_id,
                    move_plan: None,
                },
            )
        }),
{
    let plan_id = created.index;
    let current = s.meta.placement(group)->0;
    assert(group_sound(s.meta.cluster->0, group, s.meta.placement(group)));
    let fresh = MovePlanView {
        plan_id,
        target_voters: rising_members(target_voters.to_set()),
        aborting: false,
    };
    let p1 = PlacementView { move_plan: Some(fresh), ..current };
    let m1 = MutationView::PutPlacement { group, placement: p1 };
    assert(create_plan_decision(s.meta, group, target_voters, created) == applied(m1));
    lemma_applied_is(s, m1, created);
    lemma_put(s.meta.placements, group, p1);
    let one = applied_state(s, applied(m1), created);
    assert(one.meta.placement(group) == Some(p1));
    let p2 = PlacementView {
        move_plan: Some(MovePlanView { aborting: true, ..fresh }),
        ..current
    };
    let m2 = MutationView::PutPlacement { group, placement: p2 };
    assert(mark_aborting_decision(one.meta, group, plan_id) == applied(m2));
    lemma_applied_is(one, m2, marked);
    lemma_put(one.meta.placements, group, p2);
    let two = applied_state(one, applied(m2), marked);
    assert(two.meta.placement(group) == Some(p2));
    lemma_sorted_rising(current.voters);
    let p3 = PlacementView {
        voters: current.voters,
        voters_log_id: observation.config_log_id,
        move_plan: None,
    };
    let m3 = MutationView::PutPlacement { group, placement: p3 };
    assert(finalize_plan_decision(two.meta, group, plan_id, observation, true) == applied(m3));
    lemma_applied_is(two, m3, reported);
    lemma_put(two.meta.placements, group, p3);
}

/// What clearing claims does to each claim.
pub(crate) proof fn lemma_deletes_effect(
    s: MetaView,
    ready: Seq<(ReadyKey, SearchIndexReady)>,
    name: Seq<char>,
    generation: u64,
)
    requires
        keys_distinct(s.ready),
    ensures
        ({
            let t = after_all(s, claim_deletes(ready, name, generation));
            &&& keys_distinct(t.ready)
            &&& forall|k: ReadyKey|
                (#[trigger] t.claim(k)) is Some ==> t.claim(k) == s.claim(k)
            &&& forall|i: int|
                0 <= i < ready.len() && claim_under(#[trigger] ready[i], name, generation)
                    ==> t.claim(ready[i].0) is None
            &&& forall|k: ReadyKey|
                !(k.0 == name && k.1 == generation) ==> (#[trigger] t.claim(k)) == s.claim(k)
        }),
    decreases ready.len(),
{
    let muts = claim_deletes(ready, name, generation);
    if ready.len() == 0 {
        assert(muts =~= Seq::<MutationView>::empty());
    } else {
        let head = ready.drop_last();
        let rest = claim_deletes(head, name, generation);
        lemma_deletes_effect(s, head, name, generation);
        let u = after_all(s, rest);
        if claim_under(ready.last(), name, generation) {
            let key = ready.last().0;
            let m = MutationView::DeleteReady { key };
            assert(muts.drop_last() =~= rest);
            assert(muts.last() == m);
            let t = after_all(s, muts);
            assert(t == m.after(u));
            lemma_del(u.ready, key);
            assert forall|k: ReadyKey| (#[trigger] t.claim(k)) is Some implies t.claim(k)
                == s.claim(k) by {
                if k != key {
                    assert(t.claim(k) == u.claim(k));
                }
            }
            assert forall|i: int|
                0 <= i < ready.len() && claim_under(#[trigger] ready[i], name, generation) implies (
            t.claim(ready[i].0) is None) by {
                if ready[i].0 != key {
                    assert(t.claim(ready[i].0) == u.claim(ready[i].0));
                    assert(head[i] == ready[i]);
                }
            }
            assert forall|k: ReadyKey| !(k.0 == name && k.1 == generation) implies (
            #[trigger] t.claim(k)) == s.claim(k) by {
                assert(t.claim(k) == u.claim(k));
            }
        } else {
            assert(muts == rest);
            assert forall|i: int|
                0 <= i < ready.len() && claim_under(#[trigger] ready[i], name, generation) implies (
            u.claim(ready[i].0) is None) by {
                assert(head[i] == ready[i]);
            }
        }
    }
}

/// After an activation the generation is the active one, its predecessor
/// retires, no claim for it is left, and the same command changes nothing more.
/// It needs every voter of every partition to have vouched for it.
pub proof fn law_activation_takes_effect(
    s: StorageView,
    name: Seq<char>,
    generation: u64,
    log_id: LogId,
)
    requires
        sound(s.meta),
        activate_search_generation_decision(s.meta, name, generation) matches Decision::Decided(
            r,
            _,
        ) && r == ResultView::Applied,
    ensures
        ({
            let before = s.meta.index(name)->0;
            let t = applied_state(
                s,
                activate_search_generation_decision(s.meta, name, generation),
                log_id,
            ).meta;
            &&& forall|partition: u16|
                partition < s.meta.cluster->0.p ==> #[trigger] partition_ready(
                    s.meta,
                    name,
                    before.building->0,
                    partition,
                )
            &&& t.index(name) matches Some(after) && after.active == before.building
                && after.building is None && (before.active matches Some(a)
                ==> after.retiring.contains(a.id))
            &&& forall|k: ReadyKey|
                k.0 == name && k.1 == generation ==> (#[trigger] t.claim(k)) is None
            &&& activate_search_generation_decision(t, name, generation) == no_change(
                ResultView::NoOp,
            )
        }),
{
    let d = activate_search_generation_decision(s.meta, name, generation);
    assert(index_sound(name, s.meta.index(name)));
    let record = s.meta.index(name)->0;
    let b = record.building->0;
    let next = RecordView {
        active: Some(b),
        building: None,
        retiring: match record.active {
            Some(a) => with_id(record.retiring, a.id),
            None => record.retiring,
        },
        ..record
    };
    let deletes = claim_deletes(s.meta.ready, name, generation);
    assert(d == stored_with_deletes(next, deletes));
    let m = MutationView::PutIndex { record: next };
    let muts = seq![m] + deletes;
    lemma_after_append(s.meta, seq![m], deletes);
    lemma_after_one(s.meta, m);
    let u = m.after(s.meta);
    let t = after_all(u, deletes);
    lemma_put(s.meta.indexes, name, next);
    lemma_deletes_frame(u, s.meta.ready, name, generation);
    lemma_deletes_effect(u, s.meta.ready, name, generation);
    let applied_meta = applied_state(s, d, log_id).meta;
    assert(applied_meta.indexes == u.indexes);
    assert(applied_meta.index(name) == Some(next));
    if let Some(a) = record.active {
        if !record.retiring.contains(a.id) {
            assert(next.retiring[record.retiring.len() as int] == a.id);
        }
    }
    assert forall|k: ReadyKey| k.0 == name && k.1 == generation implies (
    #[trigger] applied_meta.claim(k)) is None by {
        assert(applied_meta.claim(k) == t.claim(k));
        if t.claim(k) is Some {
            assert(t.claim(k) == u.claim(k));
            lemma_slot(s.meta.ready, k);
            let i = slot(s.meta.ready, k);
            assert(s.meta.ready[i].0 == k);
            assert(claim_under(s.meta.ready[i], name, generation));
            assert(t.claim(s.meta.ready[i].0) is None);
        }
    }
}

/// After a drop the index serves nothing, its generations wait for removal, no
/// claim for the generation that was building is left, and dropping again
/// changes nothing.
pub proof fn law_drop_takes_effect(s: StorageView, name: Seq<char>, log_id: LogId)
    requires
        sound(s.meta),
        drop_search_index_decision(s.meta, name) matches Decision::Decided(r, _) && r
            == ResultView::Applied,
    ensures
        ({
            let before = s.meta.index(name)->0;
            let t = applied_state(s, drop_search_index_decision(s.meta, name), log_id).meta;
            &&& t.index(name) matches Some(after) && after.active is None && after.building is None
                && after.retiring == dropped_retiring(before)
            &&& before.building matches Some(b) ==> forall|k: ReadyKey|
                k.0 == name && k.1 == b.id ==> (#[trigger] t.claim(k)) is None
            &&& drop_search_index_decision(t, name) == no_change(ResultView::NoOp)
        }),
{
    let d = drop_search_index_decision(s.meta, name);
    assert(index_sound(name, s.meta.index(name)));
    let record = s.meta.index(name)->0;
    let next = RecordView {
        active: None,
        building: None,
        retiring: dropped_retiring(record),
        ..record
    };
    let deletes = match record.building {
        Some(b) => claim_deletes(s.meta.ready, name, b.id),
        None => Seq::empty(),
    };
    assert(d == stored_with_deletes(next, deletes));
    let m = MutationView::PutIndex { record: next };
    let u = m.after(s.meta);
    lemma_after_append(s.meta, seq![m], deletes);
    lemma_after_one(s.meta, m);
    let t = after_all(u, deletes);
    lemma_put(s.meta.indexes, name, next);
    let applied_meta = applied_state(s, d, log_id).meta;
    match record.building {
        Some(b) => {
            lemma_deletes_frame(u, s.meta.ready, name, b.id);
            lemma_deletes_effect(u, s.meta.ready, name, b.id);
            assert forall|k: ReadyKey| k.0 == name && k.1 == b.id implies (
            #[trigger] applied_meta.claim(k)) is None by {
                assert(applied_meta.claim(k) == t.claim(k));
                if t.claim(k) is Some {
                    assert(t.claim(k) == u.claim(k));
                    lemma_slot(s.meta.ready, k);
                    let i = slot(s.meta.ready, k);
                    assert(claim_under(s.meta.ready[i], name, b.id));
                    assert(t.claim(s.meta.ready[i].0) is None);
                }
            }
        },
        None => {
            assert(t == u);
        },
    }
    assert(applied_meta.index(name) == Some(next));
}

/// Finalizing the last retired generation of a dropped index removes the index.
pub proof fn law_last_finalize_removes_index(
    s: StorageView,
    name: Seq<char>,
    generation: u64,
    log_id: LogId,
)
    requires
        sound(s.meta),
        s.meta.index(name) matches Some(r) && r.active is None && r.building is None && r.retiring
            == seq![generation],
    ensures
        applied_state(
            s,
            finalize_search_drop_decision(s.meta, name, generation),
            log_id,
        ).meta.index(name) is None,
{
    assert(index_sound(name, s.meta.index(name)));
    let record = s.meta.index(name)->0;
    assert(record.retiring[0] == generation);
    assert(record.retiring.contains(generation));
    lemma_without_len(record.retiring, generation);
    let m = MutationView::DeleteIndex { name };
    assert(finalize_search_drop_decision(s.meta, name, generation) == applied(m));
    lemma_applied_is(s, m, log_id);
    lemma_del(s.meta.indexes, name);
}

} // verus!
