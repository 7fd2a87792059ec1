//! The placement balancer: at most one single-voter replacement at a time, the
//! same for the same inputs.
//!
//! A partition that holds a voter which is no longer eligible sheds it first.
//! Once there is none, one slot moves from the most loaded eligible node to the
//! least loaded one that does not hold the partition, as long as the gap is at
//! least two, so the loads converge and do not swing. A partition with a move in
//! flight is left alone, and its replicas count toward no load.
use crate::meta::laws::lemma_rising_exists;
use crate::meta::reconcile::replaces_one;
use crate::sets::{
    holds, lemma_rising_set, lemma_sorted, lemma_sorted_distinct, lemma_without, rising, rising_ids,
    rising_members, sort_ids, sorted, without, without_id,
};
use crate::tables::{value_of, NodeTable};
use crate::types::{
    entry_views, GroupId, NodeDirectoryEntry, NodeEntryView, NodeId, NodeState, Placement,
    PlacementView,
};
use std::collections::BTreeMap;
use vstd::prelude::*;

verus! {

broadcast use {
    vstd::std_specs::btree::group_btree_axioms,
    vstd::laws_cmp::group_laws_cmp,
};

/// A proposed replacement of one voter of a group.
#[derive(Debug, Clone, PartialEq, Eq)]
pub struct PlanProposal {
    pub group: GroupId,
    pub target_voters: Vec<NodeId>,
}

/// The content of a proposal.
#[verifier::ext_equal]
pub struct ProposalView {
    pub group: GroupId,
    pub target_voters: Seq<NodeId>,
}

impl View for PlanProposal {
    type V = ProposalView;

    open spec fn view(&self) -> ProposalView {
        ProposalView { group: self.group, target_voters: self.target_voters@ }
    }
}

/// Partitions with their placements.
pub type Parts = Seq<(u16, PlacementView)>;

/// The partitions that a map holds, as numbers.
pub open spec fn partition_set(m: Map<u16, Placement>) -> Set<u64> {
    Set::new(|x: u64| x <= u16::MAX && m.contains_key(x as u16))
}

/// The placements of a map in the order of their partitions.
pub open spec fn ranked(m: Map<u16, Placement>) -> Parts {
    rising_members(partition_set(m)).map_values(|x: u64| (x as u16, m[x as u16]@))
}

/// The nodes that may host replicas: those listed as active.
pub open spec fn eligible(directory: Seq<NodeEntryView>) -> Set<NodeId> {
    Set::new(
        |id: NodeId|
            exists|i: int|
                0 <= i < directory.len() && (#[trigger] directory[i]).node_id == id
                    && directory[i].state is Active,
    )
}

/// How often a node occurs among voters.
pub open spec fn occurrences(voters: Seq<NodeId>, n: NodeId) -> nat
    decreases voters.len(),
{
    if voters.len() == 0 {
        0
    } else {
        occurrences(voters.drop_last(), n) + if voters.last() == n {
            1nat
        } else {
            0
        }
    }
}

/// How many replicas a node carries over the partitions without a move in flight.
pub open spec fn load(parts: Parts, n: NodeId) -> nat
    decreases parts.len(),
{
    if parts.len() == 0 {
        0
    } else {
        load(parts.drop_last(), n) + if parts.last().1.move_plan is None {
            occurrences(parts.last().1.voters, n)
        } else {
            0
        }
    }
}

/// Whether a node is the one to move a replica to: eligible, without a replica
/// here, and of the least load; of two equally loaded, the lower id.
pub open spec fn is_destination(
    nodes: Set<NodeId>,
    parts: Parts,
    voters: Seq<NodeId>,
    x: NodeId,
) -> bool {
    &&& nodes.contains(x) && !voters.contains(x)
    &&& forall|y: NodeId|
        #[trigger] nodes.contains(y) && !voters.contains(y) ==> load(parts, x) < load(parts, y) || (
        load(parts, x) == load(parts, y) && x <= y)
}

/// The node to move a replica of a partition to, if there is one.
pub open spec fn destination(nodes: Set<NodeId>, parts: Parts, voters: Seq<NodeId>) -> Option<
    NodeId,
> {
    if exists|x: NodeId| is_destination(nodes, parts, voters, x) {
        Some(choose|x: NodeId| is_destination(nodes, parts, voters, x))
    } else {
        None
    }
}

/// Whether a voter is the one to drain: the lowest that is not eligible.
pub open spec fn is_drained(nodes: Set<NodeId>, voters: Seq<NodeId>, x: NodeId) -> bool {
    &&& voters.contains(x) && !nodes.contains(x)
    &&& forall|y: NodeId| #[trigger] voters.contains(y) && !nodes.contains(y) ==> x <= y
}

/// The voter to drain, if there is one.
pub open spec fn drained(nodes: Set<NodeId>, voters: Seq<NodeId>) -> Option<NodeId> {
    if exists|x: NodeId| is_drained(nodes, voters, x) {
        Some(choose|x: NodeId| is_drained(nodes, voters, x))
    } else {
        None
    }
}

/// Whether a voter is the one to relieve: eligible and of the greatest load; of
/// two equally loaded, the lower id.
pub open spec fn is_relieved(nodes: Set<NodeId>, parts: Parts, voters: Seq<NodeId>, x: NodeId) -> bool {
    &&& voters.contains(x) && nodes.contains(x)
    &&& forall|y: NodeId|
        #[trigger] voters.contains(y) && nodes.contains(y) ==> load(parts, x) > load(parts, y) || (
        load(parts, x) == load(parts, y) && x <= y)
}

/// The voter to relieve, if there is one.
pub open spec fn relieved(nodes: Set<NodeId>, parts: Parts, voters: Seq<NodeId>) -> Option<NodeId> {
    if exists|x: NodeId| is_relieved(nodes, parts, voters, x) {
        Some(choose|x: NodeId| is_relieved(nodes, parts, voters, x))
    } else {
        None
    }
}

/// The exchange that drains a partition: the voter to drop and the node to add.
pub open spec fn drain_exchange(nodes: Set<NodeId>, parts: Parts, i: int) -> Option<
    (NodeId, NodeId),
> {
    let p = parts[i].1;
    if p.move_plan is Some {
        None
    } else {
        match (drained(nodes, p.voters), destination(nodes, parts, p.voters)) {
            (Some(x), Some(y)) => Some((x, y)),
            _ => None,
        }
    }
}

/// The exchange that evens out loads at a partition, worthwhile only if it
/// narrows a gap of at least two.
pub open spec fn level_exchange(nodes: Set<NodeId>, parts: Parts, i: int) -> Option<
    (NodeId, NodeId),
> {
    let p = parts[i].1;
    if p.move_plan is Some {
        None
    } else {
        match (relieved(nodes, parts, p.voters), destination(nodes, parts, p.voters)) {
            (Some(x), Some(y)) => if load(parts, x) < load(parts, y) + 2 {
                None
            } else {
                Some((x, y))
            },
            _ => None,
        }
    }
}

/// The load of the voter that levelling a partition relieves.
pub open spec fn relief(nodes: Set<NodeId>, parts: Parts, i: int) -> nat {
    match level_exchange(nodes, parts, i) {
        Some((source, _)) => load(parts, source),
        None => 0,
    }
}

/// Whether a partition is the first that can be drained.
pub open spec fn first_drain(nodes: Set<NodeId>, parts: Parts, i: int) -> bool {
    &&& 0 <= i < parts.len()
    &&& drain_exchange(nodes, parts, i) is Some
    &&& forall|j: int| 0 <= j < i ==> (#[trigger] drain_exchange(nodes, parts, j)) is None
}

/// Whether a partition is the best to level: it relieves the most loaded voter;
/// of two that do, the lower partition.
pub open spec fn best_level(nodes: Set<NodeId>, parts: Parts, i: int) -> bool {
    &&& 0 <= i < parts.len()
    &&& level_exchange(nodes, parts, i) is Some
    &&& forall|j: int|
        0 <= j < parts.len() && (#[trigger] level_exchange(nodes, parts, j)) is Some ==> relief(
            nodes,
            parts,
            i,
        ) > relief(nodes, parts, j) || (relief(nodes, parts, i) == relief(nodes, parts, j) && i
            <= j)
}

/// A group's voters with one exchanged for another, in rising order.
pub open spec fn exchanged(part: (u16, PlacementView), exchange: (NodeId, NodeId)) -> ProposalView {
    ProposalView {
        group: GroupId::Data(part.0),
        target_voters: sorted(without(part.1.voters, exchange.0).push(exchange.1)),
    }
}

/// The next move, if one is due.
pub open spec fn proposal(directory: Seq<NodeEntryView>, parts: Parts, r: nat) -> Option<
    ProposalView,
> {
    let nodes = eligible(directory);
    if nodes.len() < r {
        None
    } else if exists|i: int| first_drain(nodes, parts, i) {
        let i = choose|i: int| first_drain(nodes, parts, i);
        Some(exchanged(parts[i], drain_exchange(nodes, parts, i)->0))
    } else if exists|i: int| best_level(nodes, parts, i) {
        let i = choose|i: int| best_level(nodes, parts, i);
        Some(exchanged(parts[i], level_exchange(nodes, parts, i)->0))
    } else {
        None
    }
}

proof fn lemma_destination_is(nodes: Set<NodeId>, parts: Parts, voters: Seq<NodeId>, x: NodeId)
    requires
        is_destination(nodes, parts, voters, x),
    ensures
        destination(nodes, parts, voters) == Some(x),
{
    let y = choose|y: NodeId| is_destination(nodes, parts, voters, y);
    assert(is_destination(nodes, parts, voters, y));
    assert(nodes.contains(x) && nodes.contains(y));
}

proof fn lemma_drained_is(nodes: Set<NodeId>, voters: Seq<NodeId>, x: NodeId)
    requires
        is_drained(nodes, voters, x),
    ensures
        drained(nodes, voters) == Some(x),
{
    let y = choose|y: NodeId| is_drained(nodes, voters, y);
    assert(is_drained(nodes, voters, y));
    assert(voters.contains(x) && voters.contains(y));
}

proof fn lemma_relieved_is(nodes: Set<NodeId>, parts: Parts, voters: Seq<NodeId>, x: NodeId)
    requires
        is_relieved(nodes, parts, voters, x),
    ensures
        relieved(nodes, parts, voters) == Some(x),
{
    let y = choose|y: NodeId| is_relieved(nodes, parts, voters, y);
    assert(is_relieved(nodes, parts, voters, y));
    assert(voters.contains(x) && voters.contains(y));
}

/// The contents of placements with their partitions.
pub open spec fn part_views(parts: Seq<(u16, Placement)>) -> Parts {
    parts.map_values(|p: (u16, Placement)| (p.0, p.1@))
}

/// Whether a node is active among the first entries of a directory.
spec fn active_before(directory: Seq<NodeEntryView>, n: int, id: NodeId) -> bool {
    exists|j: int|
        0 <= j < n && (#[trigger] directory[j]).node_id == id && directory[j].state is Active
}

/// The active nodes, each once, in rising order.
fn eligible_nodes(directory: &[NodeDirectoryEntry]) -> (out: Vec<NodeId>)
    ensures
        rising(out@),
        out@.to_set() == eligible(entry_views(directory@)),
        out@.len() == eligible(entry_views(directory@)).len(),
{
    let mut ids: Vec<NodeId> = Vec::new();
    let ghost views = entry_views(directory@);
    let mut i: usize = 0;
    while i < directory.len()
        invariant
            i <= directory@.len(),
            views == entry_views(directory@),
            forall|k: int|
                0 <= k < ids@.len() ==> active_before(views, i as int, #[trigger] ids@[k]),
            forall|j: int|
                0 <= j < i && (#[trigger] views[j]).state is Active ==> ids@.contains(
                    views[j].node_id,
                ),
        decreases directory@.len() - i,
    {
        let entry = &directory[i];
        assert(views[i as int] == entry@);
        let ghost before = ids@;
        if entry.state == NodeState::Active {
            ids.push(entry.node_id);
            proof {
                assert(ids@[ids@.len() - 1] == views[i as int].node_id);
                assert forall|j: int|
                    0 <= j < i + 1 && (#[trigger] views[j]).state is Active implies ids@.contains(
                    views[j].node_id,
                ) by {
                    if j < i {
                        let k = before.index_of(views[j].node_id);
                        assert(ids@[k] == views[j].node_id);
                    }
                }
                assert forall|k: int| 0 <= k < ids@.len() implies active_before(
                    views,
                    i + 1,
                    #[trigger] ids@[k],
                ) by {
                    if k < before.len() {
                        assert(active_before(views, i as int, before[k]));
                        let j = choose|j: int|
                            0 <= j < i && (#[trigger] views[j]).node_id == before[k]
                                && views[j].state is Active;
                        assert(views[j].node_id == ids@[k]);
                    } else {
                        assert(views[i as int].node_id == ids@[k]);
                    }
                }
            }
        }
        i += 1;
    }
    proof {
        assert forall|id: NodeId| ids@.to_set().contains(id) <==> eligible(views).contains(id) by {
            if ids@.contains(id) {
                let k = ids@.index_of(id);
                assert(ids@[k] == id);
                assert(active_before(views, i as int, ids@[k]));
            }
        }
        assert(ids@.to_set() =~= eligible(views));
    }
    rising_ids(&ids)
}

proof fn lemma_occurrences_bound(voters: Seq<NodeId>, n: NodeId)
    ensures
        occurrences(voters, n) <= voters.len(),
    decreases voters.len(),
{
    if voters.len() > 0 {
        lemma_occurrences_bound(voters.drop_last(), n);
    }
}

/// The load of each node, as a table.
struct Loads {
    table: NodeTable<u128>,
}

impl Loads {
    spec fn valid(&self) -> bool {
        self.table.valid()
    }

    spec fn count(&self, n: NodeId) -> nat {
        match value_of(self.table@, n) {
            Some(c) => c as nat,
            None => 0,
        }
    }

    fn of(&self, n: NodeId) -> (c: u128)
        ensures
            c == self.count(n),
    {
        match self.table.lookup(n) {
            Some(c) => c,
            None => 0,
        }
    }

    /// Count the replicas of all partitions without a move in flight. There are at
    /// most 65536 of them, so no count can exceed what is kept.
    fn of_parts(parts: &Vec<(u16, Placement)>) -> (loads: Loads)
        requires
            parts@.len() <= 65536,
        ensures
            loads.valid(),
            forall|n: NodeId| #[trigger] loads.count(n) == load(part_views(parts@), n),
    {
        let mut loads = Loads { table: NodeTable::new() };
        let ghost views = part_views(parts@);
        let mut i: usize = 0;
        proof {
            assert(views.take(0) =~= Seq::<(u16, PlacementView)>::empty());
        }
        while i < parts.len()
            invariant
                i <= parts@.len() <= 65536,
                views == part_views(parts@),
                loads.valid(),
                forall|n: NodeId| #[trigger] loads.count(n) == load(views.take(i as int), n),
                forall|n: NodeId| #[trigger] loads.count(n) <= i * 0x1_0000_0000_0000_0000,
            decreases parts@.len() - i,
        {
            let voters = &parts[i].1.voters;
            let ghost base = loads;
            let total: usize = if parts[i].1.move_plan.is_none() {
                voters.len()
            } else {
                0
            };
            let mut k: usize = 0;
            proof {
                assert(voters@.take(0) =~= Seq::<NodeId>::empty());
            }
            while k < total
                invariant
                    i < 65536,
                    k <= total,
                    total <= voters@.len(),
                    loads.valid(),
                    forall|n: NodeId| #[trigger]
                        loads.count(n) == base.count(n) + occurrences(voters@.take(k as int), n),
                    forall|n: NodeId| #[trigger] base.count(n) <= i * 0x1_0000_0000_0000_0000,
                decreases total - k,
            {
                let v: NodeId = voters[k];
                let ghost prior = loads;
                proof {
                    lemma_occurrences_bound(voters@.take(k as int), v);
                    assert(prior.count(v) <= i * 0x1_0000_0000_0000_0000 + k);
                    assert(voters@.take(k + 1).drop_last() =~= voters@.take(k as int));
                    assert(voters@.take(k + 1).last() == v);
                }
                let c: u128 = loads.of(v);
                loads.table.insert(v, c + 1);
                proof {
                    assert forall|n: NodeId| #[trigger] loads.count(n) == base.count(n)
                        + occurrences(voters@.take(k + 1), n) by {
                        assert(prior.count(n) == base.count(n) + occurrences(
                            voters@.take(k as int),
                            n,
                        ));
                    }
                }
                k += 1;
            }
            proof {
                if views[i as int].1.move_plan is None {
                    assert(voters@.take(k as int) =~= voters@);
                } else {
                    assert(voters@.take(k as int) =~= Seq::<NodeId>::empty());
                }
                assert(views.take(i + 1).drop_last() =~= views.take(i as int));
                assert(views.take(i + 1).last() == views[i as int]);
                assert forall|n: NodeId| #[trigger] loads.count(n) == load(views.take(i + 1), n) by {
                    assert(base.count(n) == load(views.take(i as int), n));
                }
                assert forall|n: NodeId| #[trigger] loads.count(n) <= (i + 1)
                    * 0x1_0000_0000_0000_0000 by {
                    lemma_occurrences_bound(voters@, n);
                    assert(base.count(n) <= i * 0x1_0000_0000_0000_0000);
                }
            }
            i += 1;
        }
        assert(views.take(i as int) =~= views);
        loads
    }
}

fn destination_of(
    nodes: &Vec<NodeId>,
    loads: &Loads,
    voters: &Vec<NodeId>,
    Ghost(parts): Ghost<Parts>,
) -> (r: Option<NodeId>)
    requires
        forall|n: NodeId| #[trigger] loads.count(n) == load(parts, n),
    ensures
        r == destination(nodes@.to_set(), parts, voters@),
{
    let mut best: Option<NodeId> = None;
    let mut i: usize = 0;
    let ghost set = nodes@.to_set();
    while i < nodes.len()
        invariant
            i <= nodes@.len(),
            forall|n: NodeId| #[trigger] loads.count(n) == load(parts, n),
            match best {
                None => forall|k: int| 0 <= k < i ==> voters@.contains(#[trigger] nodes@[k]),
                Some(x) => {
                    &&& nodes@.contains(x) && !voters@.contains(x)
                    &&& forall|k: int|
                        0 <= k < i && !voters@.contains(#[trigger] nodes@[k]) ==> load(parts, x)
                            < load(parts, nodes@[k]) || (load(parts, x) == load(parts, nodes@[k])
                            && x <= nodes@[k])
                },
            },
        decreases nodes@.len() - i,
    {
        let n: NodeId = nodes[i];
        if !holds(voters, n) {
            let better: bool = match best {
                None => true,
                Some(x) => {
                    let a: u128 = loads.of(n);
                    let b: u128 = loads.of(x);
                    a < b || (a == b && n < x)
                },
            };
            if better {
                best = Some(n);
            }
        }
        i += 1;
    }
    proof {
        match best {
            None => {
                assert forall|x: NodeId| !is_destination(set, parts, voters@, x) by {
                    if set.contains(x) {
                        let k = nodes@.index_of(x);
                        assert(nodes@[k] == x);
                    }
                }
            },
            Some(x) => {
                assert forall|y: NodeId| #[trigger] set.contains(y) && !voters@.contains(y) implies load(
                    parts,
                    x,
                ) < load(parts, y) || (load(parts, x) == load(parts, y) && x <= y) by {
                    let k = nodes@.index_of(y);
                    assert(nodes@[k] == y);
                }
                lemma_destination_is(set, parts, voters@, x);
            },
        }
    }
    best
}

fn drained_of(nodes: &Vec<NodeId>, voters: &Vec<NodeId>) -> (r: Option<NodeId>)
    ensures
        r == drained(nodes@.to_set(), voters@),
{
    let mut best: Option<NodeId> = None;
    let mut i: usize = 0;
    let ghost set = nodes@.to_set();
    while i < voters.len()
        invariant
            i <= voters@.len(),
            set == nodes@.to_set(),
            match best {
                None => forall|k: int| 0 <= k < i ==> set.contains(#[trigger] voters@[k]),
                Some(x) => {
                    &&& voters@.contains(x) && !set.contains(x)
                    &&& forall|k: int|
                        0 <= k < i && !set.contains(#[trigger] voters@[k]) ==> x <= voters@[k]
                },
            },
        decreases voters@.len() - i,
    {
        let v: NodeId = voters[i];
        if !holds(nodes, v) {
            let better: bool = match best {
                None => true,
                Some(x) => v < x,
            };
            if better {
                best = Some(v);
            }
        }
        i += 1;
    }
    proof {
        match best {
            None => {
                assert forall|x: NodeId| !is_drained(set, voters@, x) by {
                    if voters@.contains(x) {
                        let k = voters@.index_of(x);
                        assert(voters@[k] == x);
                    }
                }
            },
            Some(x) => {
                assert forall|y: NodeId| #[trigger] voters@.contains(y) && !set.contains(y) implies x
                    <= y by {
                    let k = voters@.index_of(y);
                    assert(voters@[k] == y);
                }
                lemma_drained_is(set, voters@, x);
            },
        }
    }
    best
}

fn relieved_of(
    nodes: &Vec<NodeId>,
    loads: &Loads,
    voters: &Vec<NodeId>,
    Ghost(parts): Ghost<Parts>,
) -> (r: Option<NodeId>)
    requires
        forall|n: NodeId| #[trigger] loads.count(n) == load(parts, n),
    ensures
        r == relieved(nodes@.to_set(), parts, voters@),
{
    let mut best: Option<NodeId> = None;
    let mut i: usize = 0;
    let ghost set = nodes@.to_set();
    while i < voters.len()
        invariant
            i <= voters@.len(),
            set == nodes@.to_set(),
            forall|n: NodeId| #[trigger] loads.count(n) == load(parts, n),
            match best {
                None => forall|k: int| 0 <= k < i ==> !set.contains(#[trigger] voters@[k]),
                Some(x) => {
                    &&& voters@.contains(x) && set.contains(x)
                    &&& forall|k: int|
                        0 <= k < i && set.contains(#[trigger] voters@[k]) ==> load(parts, x) > load(
                            parts,
                            voters@[k],
                        ) || (load(parts, x) == load(parts, voters@[k]) && x <= voters@[k])
                },
            },
        decreases voters@.len() - i,
    {
        let v: NodeId = voters[i];
        if holds(nodes, v) {
            let better: bool = match best {
                None => true,
                Some(x) => {
                    let a: u128 = loads.of(v);
                    let b: u128 = loads.of(x);
                    a > b || (a == b && v < x)
                },
            };
            if better {
                best = Some(v);
            }
        }
        i += 1;
    }
    proof {
        match best {
            None => {
                assert forall|x: NodeId| !is_relieved(set, parts, voters@, x) by {
                    if voters@.contains(x) {
                        let k = voters@.index_of(x);
                        assert(voters@[k] == x);
                    }
                }
            },
            Some(x) => {
                assert forall|y: NodeId| #[trigger] voters@.contains(y) && set.contains(y) implies load(
                    parts,
                    x,
                ) > load(parts, y) || (load(parts, x) == load(parts, y) && x <= y) by {
                    let k = voters@.index_of(y);
                    assert(voters@[k] == y);
                }
                lemma_relieved_is(set, parts, voters@, x);
            },
        }
    }
    best
}

fn replacement(part: &(u16, Placement), drop: NodeId, add: NodeId) -> (p: PlanProposal)
    ensures
        p@ == exchanged((part.0, part.1@), (drop, add)),
{
    let mut target = without_id(&part.1.voters, drop);
    target.push(add);
    PlanProposal { group: GroupId::Data(part.0), target_voters: sort_ids(&target) }
}

/// The next move over partitions in the order of their numbers.
pub fn propose_ranked(directory: &[NodeDirectoryEntry], parts: &Vec<(u16, Placement)>, r: usize) -> (out:
    Option<PlanProposal>)
    requires
        parts@.len() <= 65536,
    ensures
        match out {
            Some(p) => proposal(entry_views(directory@), part_views(parts@), r as nat) == Some(p@),
            None => proposal(entry_views(directory@), part_views(parts@), r as nat) is None,
        },
{
    let nodes = eligible_nodes(directory);
    if nodes.len() < r {
        return None;
    }
    let ghost views = part_views(parts@);
    let ghost set = nodes@.to_set();
    let loads = Loads::of_parts(parts);
    let mut i: usize = 0;
    while i < parts.len()
        invariant
            i <= parts@.len(),
            views == part_views(parts@),
            set == nodes@.to_set(),
            set == eligible(entry_views(directory@)),
            set.len() >= r,
            forall|n: NodeId| #[trigger] loads.count(n) == load(views, n),
            forall|j: int| 0 <= j < i ==> (#[trigger] drain_exchange(set, views, j)) is None,
        decreases parts@.len() - i,
    {
        let part = &parts[i];
        assert(views[i as int] == (part.0, part.1@));
        if part.1.move_plan.is_none() {
            if let Some(drop) = drained_of(&nodes, &part.1.voters) {
                if let Some(dest) = destination_of(&nodes, &loads, &part.1.voters, Ghost(views)) {
                    proof {
                        assert(drain_exchange(set, views, i as int) == Some((drop, dest)));
                        assert(first_drain(set, views, i as int));
                        let j = choose|j: int| first_drain(set, views, j);
                        assert(first_drain(set, views, j));
                        assert(j == i);
                    }
                    return Some(replacement(part, drop, dest));
                }
            }
        }
        i += 1;
    }
    proof {
        assert forall|j: int| !first_drain(set, views, j) by {
            if 0 <= j < parts@.len() {
                assert(drain_exchange(set, views, j) is None);
            }
        }
    }
    let mut best: Option<(NodeId, NodeId, usize)> = None;
    let mut k: usize = 0;
    while k < parts.len()
        invariant
            k <= parts@.len(),
            views == part_views(parts@),
            set == nodes@.to_set(),
            forall|n: NodeId| #[trigger] loads.count(n) == load(views, n),
            match best {
                None => forall|j: int|
                    0 <= j < k ==> (#[trigger] level_exchange(set, views, j)) is None,
                Some((source, dest, at)) => {
                    &&& at < k
                    &&& level_exchange(set, views, at as int) == Some((source, dest))
                    &&& forall|j: int|
                        0 <= j < k && (#[trigger] level_exchange(set, views, j)) is Some ==> load(
                            views,
                            source,
                        ) > relief(set, views, j) || (load(views, source) == relief(set, views, j)
                            && at <= j)
                },
            },
        decreases parts@.len() - k,
    {
        let part = &parts[k];
        assert(views[k as int] == (part.0, part.1@));
        if part.1.move_plan.is_none() {
            if let Some(source) = relieved_of(&nodes, &loads, &part.1.voters, Ghost(views)) {
                if let Some(dest) = destination_of(&nodes, &loads, &part.1.voters, Ghost(views)) {
                    let gain: u128 = loads.of(source);
                    let low: u128 = loads.of(dest);
                    if gain >= 2 && gain - 2 >= low {
                        assert(level_exchange(set, views, k as int) == Some((source, dest)));
                        let better: bool = match best {
                            None => true,
                            Some((current, _, _)) => gain > loads.of(current),
                        };
                        if better {
                            best = Some((source, dest, k));
                        }
                    } else {
                        assert(level_exchange(set, views, k as int) is None);
                    }
                }
            }
        }
        k += 1;
    }
    match best {
        None => {
            proof {
                assert forall|j: int| !best_level(set, views, j) by {
                    if 0 <= j < parts@.len() {
                        assert(level_exchange(set, views, j) is None);
                    }
                }
            }
            None
        },
        Some((source, dest, at)) => {
            proof {
                assert(best_level(set, views, at as int));
                let j = choose|j: int| best_level(set, views, j);
                assert(best_level(set, views, j));
                assert(level_exchange(set, views, j) is Some);
                assert(j == at);
                assert(views[at as int] == (parts@[at as int].0, parts@[at as int].1@));
            }
            Some(replacement(&parts[at], source, dest))
        },
    }
}

/// Propose the next single-voter move, or none if the cluster is balanced and
/// placed on eligible nodes. `r` is the replication factor.
pub fn propose(directory: &[NodeDirectoryEntry], placements: &BTreeMap<u16, Placement>, r: usize) -> (out:
    Option<PlanProposal>)
    ensures
        match out {
            Some(p) => proposal(entry_views(directory@), ranked(placements@), r as nat) == Some(p@),
            None => proposal(entry_views(directory@), ranked(placements@), r as nat) is None,
        },
{
    let mut keys: Vec<u64> = Vec::new();
    let ghost listed = vstd::std_specs::iter::IteratorSpec::remaining(
        &vstd::std_specs::btree::spec_keys_iter(placements),
    ).unref();
    for k in it: placements.keys()
        invariant
            listed == it.seq().unref(),
            keys@.len() == it.index(),
            forall|j: int| 0 <= j < keys@.len() ==> #[trigger] keys@[j] == listed[j] as u64,
    {
        keys.push(*k as u64);
    }
    proof {
        let want = partition_set(placements@);
        assert forall|x: u64| keys@.to_set().contains(x) <==> want.contains(x) by {
            if keys@.contains(x) {
                let j = keys@.index_of(x);
                assert(listed.to_set().contains(listed[j]));
            }
            if want.contains(x) {
                assert(listed.to_set().contains(x as u16));
                let j = listed.index_of(x as u16);
                assert(keys@[j] == x);
            }
        }
        assert(keys@.to_set() =~= want);
    }
    let order = rising_ids(&keys);
    let mut parts: Vec<(u16, Placement)> = Vec::new();
    let mut i: usize = 0;
    while i < order.len()
        invariant
            i <= order@.len(),
            rising(order@),
            order@ == rising_members(partition_set(placements@)),
            order@.to_set() == partition_set(placements@),
            part_views(parts@) == ranked(placements@).take(i as int),
            parts@.len() == i,
        decreases order@.len() - i,
    {
        assert(order@.to_set().contains(order@[i as int]));
        let p: u16 = order[i] as u16;
        match placements.get(&p) {
            Some(placement) => {
                let ghost before = parts@;
                parts.push((p, placement.duplicate()));
                assert(part_views(parts@) =~= ranked(placements@).take(i + 1));
            },
            None => {
                assert(false);
            },
        }
        i += 1;
    }
    assert(part_views(parts@) =~= ranked(placements@));
    proof {
        assert forall|k: int| 0 <= k < order@.len() implies #[trigger] order@[k] <= u16::MAX by {
            assert(order@.to_set().contains(order@[k]));
        }
        lemma_rising_bound(order@);
    }
    propose_ranked(directory, &parts, r)
}

/// A rising list of 16-bit numbers has at most 65536 entries.
proof fn lemma_rising_bound(s: Seq<u64>)
    requires
        rising(s),
        forall|i: int| 0 <= i < s.len() ==> #[trigger] s[i] <= u16::MAX,
    ensures
        s.len() <= 65536,
{
    if s.len() > 65536 {
        lemma_rising_at_least(s, 65536);
        assert(s[65536] <= u16::MAX);
    }
}

proof fn lemma_rising_at_least(s: Seq<u64>, i: int)
    requires
        rising(s),
        0 <= i < s.len(),
    ensures
        s[i] >= i,
    decreases i,
{
    if i > 0 {
        lemma_rising_at_least(s, i - 1);
        assert(s[i - 1] < s[i]);
    }
}

// -- laws --------------------------------------------------------------------

/// Every proposal replaces exactly one voter of a partition that has no move in
/// flight: the node that comes in is active and held no replica there, and the
/// target lists each of its voters once, in rising order.
pub proof fn law_proposals_replace_one_voter(
    directory: Seq<NodeEntryView>,
    parts: Parts,
    r: nat,
    p: ProposalView,
) -> (i: int)
    requires
        proposal(directory, parts, r) == Some(p),
        forall|k: int|
            0 <= k < parts.len() ==> (#[trigger] parts[k]).1.voters.no_duplicates(),
    ensures
        0 <= i < parts.len(),
        p.group == GroupId::Data(parts[i].0),
        parts[i].1.move_plan is None,
        rising(p.target_voters),
        p.target_voters.len() == parts[i].1.voters.len(),
        replaces_one(parts[i].1.voters.to_set(), p.target_voters.to_set()),
        forall|n: NodeId|
            p.target_voters.contains(n) && !parts[i].1.voters.contains(n) ==> eligible(
                directory,
            ).contains(n),
{
    let (i, drop, add) = lemma_exchange(directory, parts, r, p);
    let v = parts[i].1.voters.to_set();
    let t = p.target_voters.to_set();
    assert(t.difference(v) =~= set![add]);
    assert(v.difference(t) =~= set![drop]);
    assert forall|n: NodeId|
        p.target_voters.contains(n) && !parts[i].1.voters.contains(n) implies eligible(
        directory,
    ).contains(n) by {
        assert(t.contains(n) && !v.contains(n));
    }
    i
}

/// What a proposal exchanges: which partition's voter goes, and who comes. The
/// voter that goes is not active, or its load is two greater than that of the node
/// that comes.
proof fn lemma_exchange(
    directory: Seq<NodeEntryView>,
    parts: Parts,
    r: nat,
    p: ProposalView,
) -> (m: (int, NodeId, NodeId))
    requires
        proposal(directory, parts, r) == Some(p),
        forall|k: int|
            0 <= k < parts.len() ==> (#[trigger] parts[k]).1.voters.no_duplicates(),
    ensures
        0 <= m.0 < parts.len(),
        p.group == GroupId::Data(parts[m.0].0),
        parts[m.0].1.move_plan is None,
        rising(p.target_voters),
        p.target_voters.len() == parts[m.0].1.voters.len(),
        parts[m.0].1.voters.contains(m.1),
        !parts[m.0].1.voters.contains(m.2),
        eligible(directory).contains(m.2),
        p.target_voters.to_set() == parts[m.0].1.voters.to_set().remove(m.1).insert(m.2),
        !eligible(directory).contains(m.1) || load(parts, m.1) >= load(parts, m.2) + 2,
{
    let nodes = eligible(directory);
    let drains = exists|i: int| first_drain(nodes, parts, i);
    let (i, e) = if drains {
        let i = choose|i: int| first_drain(nodes, parts, i);
        (i, drain_exchange(nodes, parts, i)->0)
    } else {
        let i = choose|i: int| best_level(nodes, parts, i);
        (i, level_exchange(nodes, parts, i)->0)
    };
    let voters = parts[i].1.voters;
    let (drop, add) = e;
    assert(voters.no_duplicates());
    assert(is_destination(nodes, parts, voters, add));
    if drains {
        assert(is_drained(nodes, voters, drop));
    } else {
        assert(is_relieved(nodes, parts, voters, drop));
    }
    let rest = without(voters, drop);
    let list = rest.push(add);
    lemma_without(voters, drop);
    lemma_without_count(voters, drop);
    assert(list.no_duplicates()) by {
        assert(!rest.contains(add));
        assert forall|a: int, b: int| 0 <= a < b < list.len() implies list[a] != list[b] by {
            if b == rest.len() {
                assert(rest.contains(rest[a]));
            }
        }
    }
    lemma_sorted(list);
    lemma_sorted_distinct(list);
    let target = p.target_voters;
    let want = voters.to_set().remove(drop).insert(add);
    assert forall|n: NodeId| target.to_set().contains(n) <==> want.contains(n) by {
        assert(target.to_set().contains(n) <==> list.to_set().contains(n));
        if rest.contains(n) {
            let k = rest.index_of(n);
            assert(list[k] == n);
        }
        if list.contains(n) {
            let k = list.index_of(n);
            if k < rest.len() {
                assert(rest[k] == n);
            }
        }
        assert(list[rest.len() as int] == add);
    }
    assert(target.to_set() =~= want);
    (i, drop, add)
}

/// Leaving a voter out of a list that holds it once shortens the list by one.
proof fn lemma_without_count(s: Seq<NodeId>, id: NodeId)
    requires
        s.no_duplicates(),
    ensures
        without(s, id).len() == s.len() - if s.contains(id) {
            1int
        } else {
            0
        },
    decreases s.len(),
{
    if s.len() > 0 {
        let head = s.drop_last();
        lemma_without_count(head, id);
        if s.last() == id {
            assert(!head.contains(id)) by {
                if head.contains(id) {
                    let k = head.index_of(id);
                    assert(s[k] == s[s.len() - 1]);
                }
            }
            assert(s.contains(id));
        } else {
            if head.contains(id) {
                let k = head.index_of(id);
                assert(s[k] == id);
            }
            if s.contains(id) {
                let k = s.index_of(id);
                assert(head[k] == id);
            }
        }
    }
}

/// The balancer comes to rest: where it proposes nothing although enough nodes
/// are active, no partition that could be moved holds a voter it should shed, and
/// none has a voter whose load is two greater than that of an active node without
/// a replica there.
pub proof fn law_rest_means_balanced(
    directory: Seq<NodeEntryView>,
    parts: Parts,
    r: nat,
    i: int,
    source: NodeId,
    dest: NodeId,
)
    requires
        proposal(directory, parts, r) is None,
        eligible(directory).len() >= r,
        0 <= i < parts.len(),
        parts[i].1.move_plan is None,
        parts[i].1.voters.contains(source),
        eligible(directory).contains(dest),
        !parts[i].1.voters.contains(dest),
    ensures
        eligible(directory).contains(source),
        load(parts, source) < load(parts, dest) + 2,
{
    let nodes = eligible(directory);
    let voters = parts[i].1.voters;
    let to = lemma_some_destination(nodes, parts, voters, dest);
    lemma_destination_is(nodes, parts, voters, to);
    if !nodes.contains(source) {
        let low = lemma_some_drained(nodes, voters, source);
        lemma_drained_is(nodes, voters, low);
        assert(drain_exchange(nodes, parts, i) is Some);
        let j = lemma_some_first(nodes, parts, i);
        assert(first_drain(nodes, parts, j));
        assert(false);
    }
    let high = lemma_some_relieved(nodes, parts, voters, source);
    lemma_relieved_is(nodes, parts, voters, high);
    if load(parts, source) >= load(parts, dest) + 2 {
        assert(load(parts, high) >= load(parts, source));
        assert(load(parts, to) <= load(parts, dest));
        assert(level_exchange(nodes, parts, i) is Some);
        let j = lemma_some_best_of(nodes, parts, parts.len() as int);
        assert(best_level(nodes, parts, j));
        assert(false);
    }
}

/// The partitions once the next move has been carried out.
pub open spec fn moved(directory: Seq<NodeEntryView>, parts: Parts, r: nat) -> Parts {
    match proposal(directory, parts, r) {
        None => parts,
        Some(p) => parts.map_values(
            |part: (u16, PlacementView)|
                if GroupId::Data(part.0) == p.group {
                    (part.0, PlacementView { voters: p.target_voters, ..part.1 })
                } else {
                    part
                },
        ),
    }
}

/// The partitions after a number of moves, each carried out before the next is
/// proposed.
pub open spec fn after_moves(directory: Seq<NodeEntryView>, parts: Parts, r: nat, n: nat) -> Parts
    decreases n,
{
    if n == 0 {
        parts
    } else {
        after_moves(directory, moved(directory, parts, r), r, (n - 1) as nat)
    }
}

/// Whether every partition is listed once, with voters that do not repeat.
pub open spec fn parts_sound(parts: Parts) -> bool {
    &&& forall|i: int, j: int|
        0 <= i < j < parts.len() ==> (#[trigger] parts[i]).0 != (#[trigger] parts[j]).0
    &&& forall|k: int| 0 <= k < parts.len() ==> (#[trigger] parts[k]).1.voters.no_duplicates()
}

/// How many replicas stand on nodes that are not active.
pub open spec fn strays(nodes: Set<NodeId>, parts: Parts) -> nat
    decreases parts.len(),
{
    if parts.len() == 0 {
        0
    } else {
        strays(nodes, parts.drop_last()) + parts.last().1.voters.to_set().difference(nodes).len()
    }
}

/// How unevenly the load is spread over a list of nodes: the sum of its squares.
pub open spec fn unevenness(all: Seq<NodeId>, parts: Parts) -> nat
    decreases all.len(),
{
    if all.len() == 0 {
        0
    } else {
        unevenness(all.drop_last(), parts) + load(parts, all.last()) * load(parts, all.last())
    }
}

/// Every move makes progress, so that the balancer never goes back and forth: it
/// takes a replica off a node that is not active, or, with no more of those than
/// before, it makes the load of the active nodes more even.
pub proof fn law_moves_make_progress(
    directory: Seq<NodeEntryView>,
    parts: Parts,
    r: nat,
    all: Seq<NodeId>,
)
    requires
        proposal(directory, parts, r) is Some,
        parts_sound(parts),
        all.no_duplicates(),
        forall|n: NodeId| #[trigger] eligible(directory).contains(n) ==> all.contains(n),
    ensures
        parts_sound(moved(directory, parts, r)),
        strays(eligible(directory), moved(directory, parts, r)) < strays(eligible(directory), parts)
            || (strays(eligible(directory), moved(directory, parts, r)) == strays(
            eligible(directory),
            parts,
        ) && unevenness(all, moved(directory, parts, r)) < unevenness(all, parts)),
{
    let nodes = eligible(directory);
    let p = proposal(directory, parts, r)->0;
    let (i, drop, add) = lemma_exchange(directory, parts, r, p);
    let part = parts[i];
    let next = (part.0, PlacementView { voters: p.target_voters, ..part.1 });
    let after = moved(directory, parts, r);
    assert(after =~= parts.update(i, next)) by {
        assert forall|k: int| 0 <= k < parts.len() implies after[k] == parts.update(i, next)[k] by {
            if k < i {
                assert(parts[k].0 != parts[i].0);
            } else if k > i {
                assert(parts[i].0 != parts[k].0);
            }
        }
    }
    lemma_rising_set(p.target_voters);
    assert(parts_sound(after)) by {
        assert forall|a: int, b: int| 0 <= a < b < after.len() implies (#[trigger] after[a]).0 != (
        #[trigger] after[b]).0 by {
            assert(after[a].0 == parts[a].0 && after[b].0 == parts[b].0);
        }
        assert forall|k: int| 0 <= k < after.len() implies (
        #[trigger] after[k]).1.voters.no_duplicates() by {
            if k != i {
                assert(after[k] == parts[k]);
            }
        }
    }
    lemma_strays_update(nodes, parts, i, next);
    let old_out = part.1.voters.to_set().difference(nodes);
    let new_out = p.target_voters.to_set().difference(nodes);
    vstd::seq_lib::seq_to_set_is_finite(part.1.voters);
    if !nodes.contains(drop) {
        assert(new_out =~= old_out.remove(drop));
        assert(old_out.contains(drop));
    } else {
        assert(new_out =~= old_out);
        assert forall|n: NodeId|
            load(after, n) == load(parts, n) - (if n == drop {
                1int
            } else {
                0
            }) + (if n == add {
                1int
            } else {
                0
            }) by {
            lemma_load_update(parts, i, next, n);
            lemma_occurrences_once(part.1.voters, n);
            lemma_occurrences_once(p.target_voters, n);
            assert(p.target_voters.to_set().contains(n) <==> part.1.voters.to_set().remove(
                drop,
            ).insert(add).contains(n));
        }
        assert(nodes.contains(drop) && nodes.contains(add));
        lemma_unevenness_change(all, parts, after, drop, add);
    }
}

/// The balancer ends: with the directory as it is, a bounded number of moves
/// leaves nothing to propose.
pub proof fn law_balancing_ends(directory: Seq<NodeEntryView>, parts: Parts, r: nat) -> (n: nat)
    requires
        parts_sound(parts),
    ensures
        proposal(directory, after_moves(directory, parts, r, n), r) is None,
        parts_sound(after_moves(directory, parts, r, n)),
{
    let all = lemma_all_active(directory);
    lemma_moves_end(directory, parts, r, all)
}

proof fn lemma_moves_end(
    directory: Seq<NodeEntryView>,
    parts: Parts,
    r: nat,
    all: Seq<NodeId>,
) -> (n: nat)
    requires
        parts_sound(parts),
        all.no_duplicates(),
        forall|n: NodeId| #[trigger] eligible(directory).contains(n) ==> all.contains(n),
    ensures
        proposal(directory, after_moves(directory, parts, r, n), r) is None,
        parts_sound(after_moves(directory, parts, r, n)),
    decreases strays(eligible(directory), parts), unevenness(all, parts),
{
    if proposal(directory, parts, r) is None {
        0
    } else {
        law_moves_make_progress(directory, parts, r, all);
        let rest = lemma_moves_end(directory, moved(directory, parts, r), r, all);
        assert(after_moves(directory, parts, r, rest + 1) == after_moves(
            directory,
            moved(directory, parts, r),
            r,
            rest,
        ));
        rest + 1
    }
}

/// The active nodes can be listed without repeating any.
proof fn lemma_all_active(directory: Seq<NodeEntryView>) -> (all: Seq<NodeId>)
    ensures
        all.no_duplicates(),
        forall|n: NodeId| #[trigger] eligible(directory).contains(n) ==> all.contains(n),
    decreases directory.len(),
{
    if directory.len() == 0 {
        Seq::empty()
    } else {
        let head = directory.drop_last();
        let id = directory.last().node_id;
        let known = lemma_all_active(head);
        let all = if known.contains(id) {
            known
        } else {
            known.push(id)
        };
        assert forall|n: NodeId| #[trigger] eligible(directory).contains(n) implies all.contains(
            n,
        ) by {
            let k = choose|k: int|
                0 <= k < directory.len() && (#[trigger] directory[k]).node_id == n
                    && directory[k].state is Active;
            if k < head.len() {
                assert(head[k].node_id == n && head[k].state is Active);
                assert(eligible(head).contains(n));
                let j = known.index_of(n);
                assert(all[j] == n);
            } else if !known.contains(id) {
                assert(all[known.len() as int] == n);
            }
        }
        all
    }
}

proof fn lemma_load_update(parts: Parts, i: int, next: (u16, PlacementView), n: NodeId)
    requires
        0 <= i < parts.len(),
        parts[i].1.move_plan is None,
        next.1.move_plan is None,
    ensures
        load(parts.update(i, next), n) + occurrences(parts[i].1.voters, n) == load(parts, n)
            + occurrences(next.1.voters, n),
    decreases parts.len(),
{
    let after = parts.update(i, next);
    if i == parts.len() - 1 {
        assert(after.drop_last() =~= parts.drop_last());
    } else {
        lemma_load_update(parts.drop_last(), i, next, n);
        assert(after.drop_last() =~= parts.drop_last().update(i, next));
    }
}

proof fn lemma_strays_update(nodes: Set<NodeId>, parts: Parts, i: int, next: (u16, PlacementView))
    requires
        0 <= i < parts.len(),
    ensures
        strays(nodes, parts.update(i, next)) + parts[i].1.voters.to_set().difference(nodes).len()
            == strays(nodes, parts) + next.1.voters.to_set().difference(nodes).len(),
    decreases parts.len(),
{
    let after = parts.update(i, next);
    if i == parts.len() - 1 {
        assert(after.drop_last() =~= parts.drop_last());
    } else {
        lemma_strays_update(nodes, parts.drop_last(), i, next);
        assert(after.drop_last() =~= parts.drop_last().update(i, next));
    }
}

proof fn lemma_occurrences_once(voters: Seq<NodeId>, n: NodeId)
    requires
        voters.no_duplicates(),
    ensures
        occurrences(voters, n) == if voters.contains(n) {
            1nat
        } else {
            0
        },
    decreases voters.len(),
{
    if voters.len() > 0 {
        let head = voters.drop_last();
        lemma_occurrences_once(head, n);
        if voters.last() == n {
            if head.contains(n) {
                let k = head.index_of(n);
                assert(voters[k] == voters[voters.len() - 1]);
            }
        } else {
            if head.contains(n) {
                let k = head.index_of(n);
                assert(voters[k] == n);
            }
            if voters.contains(n) {
                let k = voters.index_of(n);
                assert(head[k] == n);
            }
        }
    }
}

/// Taking a replica from one node to another changes the two squares, and no
/// other.
proof fn lemma_unevenness_change(
    all: Seq<NodeId>,
    parts: Parts,
    after: Parts,
    source: NodeId,
    dest: NodeId,
)
    requires
        all.no_duplicates(),
        source != dest,
        forall|n: NodeId|
            #[trigger] load(after, n) == load(parts, n) - (if n == source {
                1int
            } else {
                0
            }) + (if n == dest {
                1int
            } else {
                0
            }),
    ensures
        unevenness(all, after) == unevenness(all, parts) - (if all.contains(source) {
            2 * load(parts, source) - 1
        } else {
            0
        }) + (if all.contains(dest) {
            2 * load(parts, dest) + 1
        } else {
            0
        }),
    decreases all.len(),
{
    if all.len() > 0 {
        let head = all.drop_last();
        let n = all.last();
        lemma_unevenness_change(head, parts, after, source, dest);
        assert forall|x: NodeId| all.contains(x) <==> head.contains(x) || x == n by {
            if all.contains(x) {
                let k = all.index_of(x);
                if k < head.len() {
                    assert(head[k] == x);
                }
            }
            if head.contains(x) {
                let k = head.index_of(x);
                assert(all[k] == x);
            }
            assert(all[all.len() - 1] == n);
        }
        assert(!head.contains(n)) by {
            if head.contains(n) {
                let k = head.index_of(n);
                assert(all[k] == all[all.len() - 1]);
            }
        }
        let was = load(parts, n) as int;
        let now = load(after, n) as int;
        if n == source {
            assert((was - 1) * (was - 1) == was * was - 2 * was + 1) by (nonlinear_arith);
        } else if n == dest {
            assert((was + 1) * (was + 1) == was * was + 2 * was + 1) by (nonlinear_arith);
        }
        assert(now * now == load(after, n) * load(after, n));
    }
}

proof fn lemma_some_first(nodes: Set<NodeId>, parts: Parts, i: int) -> (j: int)
    requires
        0 <= i < parts.len(),
        drain_exchange(nodes, parts, i) is Some,
    ensures
        first_drain(nodes, parts, j),
    decreases i,
{
    if forall|j: int| 0 <= j < i ==> (#[trigger] drain_exchange(nodes, parts, j)) is None {
        i
    } else {
        let j = choose|j: int| 0 <= j < i && (#[trigger] drain_exchange(nodes, parts, j)) is Some;
        lemma_some_first(nodes, parts, j)
    }
}

/// Among the first partitions with one that can be levelled, one is best.
proof fn lemma_some_best_of(nodes: Set<NodeId>, parts: Parts, n: int) -> (j: int)
    requires
        0 < n <= parts.len(),
        exists|i: int| 0 <= i < n && (#[trigger] level_exchange(nodes, parts, i)) is Some,
    ensures
        0 <= j < n,
        level_exchange(nodes, parts, j) is Some,
        forall|i: int|
            0 <= i < n && (#[trigger] level_exchange(nodes, parts, i)) is Some ==> relief(
                nodes,
                parts,
                j,
            ) > relief(nodes, parts, i) || (relief(nodes, parts, j) == relief(nodes, parts, i) && j
                <= i),
    decreases n,
{
    if exists|i: int| 0 <= i < n - 1 && (#[trigger] level_exchange(nodes, parts, i)) is Some {
        let j = lemma_some_best_of(nodes, parts, n - 1);
        if level_exchange(nodes, parts, n - 1) is Some && relief(nodes, parts, n - 1) > relief(
            nodes,
            parts,
            j,
        ) {
            n - 1
        } else {
            j
        }
    } else {
        n - 1
    }
}

proof fn lemma_some_drained(nodes: Set<NodeId>, voters: Seq<NodeId>, x: NodeId) -> (low: NodeId)
    requires
        voters.contains(x),
        !nodes.contains(x),
    ensures
        is_drained(nodes, voters, low),
    decreases x,
{
    if is_drained(nodes, voters, x) {
        x
    } else {
        let y = choose|y: NodeId| #[trigger] voters.contains(y) && !nodes.contains(y) && y < x;
        lemma_some_drained(nodes, voters, y)
    }
}

proof fn lemma_some_relieved(nodes: Set<NodeId>, parts: Parts, voters: Seq<NodeId>, x: NodeId) -> (high:
    NodeId)
    requires
        voters.contains(x),
        nodes.contains(x),
    ensures
        is_relieved(nodes, parts, voters, high),
        load(parts, high) >= load(parts, x),
    decreases total_load(parts) - load(parts, x), x,
{
    lemma_load_bound(parts, x);
    if is_relieved(nodes, parts, voters, x) {
        x
    } else {
        let y = choose|y: NodeId|
            #[trigger] voters.contains(y) && nodes.contains(y) && !(load(parts, x) > load(parts, y)
                || (load(parts, x) == load(parts, y) && x <= y));
        lemma_load_bound(parts, y);
        lemma_some_relieved(nodes, parts, voters, y)
    }
}

/// All replicas of all partitions.
spec fn total_load(parts: Parts) -> nat
    decreases parts.len(),
{
    if parts.len() == 0 {
        0
    } else {
        total_load(parts.drop_last()) + parts.last().1.voters.len()
    }
}

proof fn lemma_load_bound(parts: Parts, n: NodeId)
    ensures
        load(parts, n) <= total_load(parts),
    decreases parts.len(),
{
    if parts.len() > 0 {
        lemma_load_bound(parts.drop_last(), n);
        lemma_occurrences_bound(parts.last().1.voters, n);
    }
}

proof fn lemma_some_destination(
    nodes: Set<NodeId>,
    parts: Parts,
    voters: Seq<NodeId>,
    x: NodeId,
) -> (to: NodeId)
    requires
        nodes.contains(x),
        !voters.contains(x),
    ensures
        is_destination(nodes, parts, voters, to),
        load(parts, to) <= load(parts, x),
    decreases load(parts, x), x,
{
    if is_destination(nodes, parts, voters, x) {
        x
    } else {
        let y = choose|y: NodeId|
            #[trigger] nodes.contains(y) && !voters.contains(y) && !(load(parts, x) < load(
                parts,
                y,
            ) || (load(parts, x) == load(parts, y) && x <= y));
        lemma_some_destination(nodes, parts, voters, y)
    }
}

/// Whether a partition has no move under way and a voter that is not active, while
/// some active node is free to take its place.
pub open spec fn can_drain(directory: Seq<NodeEntryView>, p: PlacementView) -> bool {
    &&& p.move_plan is None
    &&& exists|x: NodeId| #[trigger] p.voters.contains(x) && !eligible(directory).contains(x)
    &&& exists|y: NodeId| #[trigger] eligible(directory).contains(y) && !p.voters.contains(y)
}

/// What is proposed first. While fewer nodes are active than a partition needs,
/// nothing is. Else, where some partition holds a voter that is not active and a
/// free active node exists for it, the first such partition is drained: its lowest
/// inactive voter goes. Only where there is none is a load evened out. Either way
/// the node that comes is the active one outside the partition with the least load,
/// the lowest of those.
pub proof fn law_draining_comes_first(
    directory: Seq<NodeEntryView>,
    parts: Parts,
    r: nat,
    p: ProposalView,
) -> (m: (int, NodeId, NodeId))
    requires
        proposal(directory, parts, r) == Some(p),
        forall|k: int|
            0 <= k < parts.len() ==> (#[trigger] parts[k]).1.voters.no_duplicates(),
    ensures
        eligible(directory).len() >= r,
        0 <= m.0 < parts.len(),
        p.group == GroupId::Data(parts[m.0].0),
        p.target_voters.to_set() == parts[m.0].1.voters.to_set().remove(m.1).insert(m.2),
        parts[m.0].1.move_plan is None,
        parts[m.0].1.voters.contains(m.1),
        eligible(directory).contains(m.2) && !parts[m.0].1.voters.contains(m.2),
        forall|y: NodeId|
            #[trigger] eligible(directory).contains(y) && !parts[m.0].1.voters.contains(y) ==> load(
                parts,
                m.2,
            ) < load(parts, y) || (load(parts, m.2) == load(parts, y) && m.2 <= y),
        eligible(directory).contains(m.1) <==> forall|k: int|
            0 <= k < parts.len() ==> !can_drain(directory, (#[trigger] parts[k]).1),
        !eligible(directory).contains(m.1) ==> {
            &&& forall|k: int|
                0 <= k < m.0 ==> !can_drain(directory, (#[trigger] parts[k]).1)
            &&& forall|x: NodeId|
                #[trigger] parts[m.0].1.voters.contains(x) && !eligible(directory).contains(x)
                    ==> m.1 <= x
        },
        eligible(directory).contains(m.1) ==> {
            &&& load(parts, m.1) >= load(parts, m.2) + 2
            &&& forall|x: NodeId|
                #[trigger] parts[m.0].1.voters.contains(x) && eligible(directory).contains(x)
                    ==> load(parts, m.1) > load(parts, x) || (load(parts, m.1) == load(parts, x)
                    && m.1 <= x)
        },
{
    let nodes = eligible(directory);
    lemma_exchange(directory, parts, r, p);
    let drains = exists|i: int| first_drain(nodes, parts, i);
    let (i, e) = if drains {
        let i = choose|i: int| first_drain(nodes, parts, i);
        (i, drain_exchange(nodes, parts, i)->0)
    } else {
        let i = choose|i: int| best_level(nodes, parts, i);
        (i, level_exchange(nodes, parts, i)->0)
    };
    let voters = parts[i].1.voters;
    let (drop, add) = e;
    assert(is_destination(nodes, parts, voters, add));
    assert forall|k: int| 0 <= k < parts.len() implies can_drain(
        directory,
        (#[trigger] parts[k]).1,
    ) == (drain_exchange(nodes, parts, k) is Some) by {
        lemma_can_drain(directory, parts, k);
    }
    if drains {
        assert(is_drained(nodes, voters, drop));
        assert(can_drain(directory, parts[i].1));
        assert forall|k: int| 0 <= k < i implies !can_drain(directory, (#[trigger] parts[k]).1) by {
            assert(drain_exchange(nodes, parts, k) is None);
        }
    } else {
        assert(is_relieved(nodes, parts, voters, drop));
        assert forall|k: int| 0 <= k < parts.len() implies !can_drain(
            directory,
            (#[trigger] parts[k]).1,
        ) by {
            if drain_exchange(nodes, parts, k) is Some {
                let j = lemma_some_first(nodes, parts, k);
            }
        }
    }
    lemma_exchanged(directory, parts, r, p, i, drop, add);
    (i, drop, add)
}

proof fn lemma_can_drain(directory: Seq<NodeEntryView>, parts: Parts, k: int)
    ensures
        can_drain(directory, parts[k].1) == (drain_exchange(
            eligible(directory),
            parts,
            k,
        ) is Some),
{
    let nodes = eligible(directory);
    let p = parts[k].1;
    if can_drain(directory, p) {
        let x = choose|x: NodeId| #[trigger] p.voters.contains(x) && !nodes.contains(x);
        let y = choose|y: NodeId| #[trigger] nodes.contains(y) && !p.voters.contains(y);
        let low = lemma_some_drained(nodes, p.voters, x);
        let to = lemma_some_destination(nodes, parts, p.voters, y);
        assert(drained(nodes, p.voters) is Some);
        assert(destination(nodes, parts, p.voters) is Some);
    } else if drain_exchange(nodes, parts, k) is Some {
        let (x, y) = drain_exchange(nodes, parts, k)->0;
        assert(is_drained(nodes, p.voters, x));
        assert(is_destination(nodes, parts, p.voters, y));
        assert(p.voters.contains(x) && nodes.contains(y));
    }
}

/// The voters that an exchange leaves.
proof fn lemma_exchanged(
    directory: Seq<NodeEntryView>,
    parts: Parts,
    r: nat,
    p: ProposalView,
    i: int,
    drop: NodeId,
    add: NodeId,
)
    requires
        p == exchanged(parts[i], (drop, add)),
    ensures
        p.target_voters.to_set() == parts[i].1.voters.to_set().remove(drop).insert(add),
{
    let voters = parts[i].1.voters;
    let rest = without(voters, drop);
    let list = rest.push(add);
    lemma_without(voters, drop);
    lemma_sorted(list);
    let target = p.target_voters;
    let want = voters.to_set().remove(drop).insert(add);
    assert forall|n: NodeId| target.to_set().contains(n) <==> want.contains(n) by {
        assert(target.to_set().contains(n) <==> list.to_set().contains(n));
        if rest.contains(n) {
            let k = rest.index_of(n);
            assert(list[k] == n);
        }
        if list.contains(n) {
            let k = list.index_of(n);
            if k < rest.len() {
                assert(rest[k] == n);
            }
        }
        assert(list[rest.len() as int] == add);
    }
    assert(target.to_set() =~= want);
}

/// Every replica that a settled placement holds counts once towards its node's
/// load; placements with a move under way do not count.
pub proof fn law_load_counts_settled_replicas(parts: Parts, part: (u16, PlacementView), n: NodeId)
    requires
        part.1.voters.no_duplicates(),
    ensures
        load(Parts::empty(), n) == 0,
        load(parts.push(part), n) == load(parts, n) + if part.1.move_plan is None
            && part.1.voters.contains(n) {
            1nat
        } else {
            0
        },
{
    assert(parts.push(part).drop_last() =~= parts);
    lemma_occurrences_once(part.1.voters, n);
}

/// A node is eligible if and only if the directory lists it as active.
pub proof fn law_eligible_nodes_are_active(directory: Seq<NodeEntryView>, id: NodeId)
    ensures
        eligible(directory).contains(id) <==> exists|i: int|
            {
                &&& 0 <= i < directory.len()
                &&& (#[trigger] directory[i]).node_id == id
                &&& directory[i].state == NodeState::Active
            },
{
    if exists|i: int|
        {
            &&& 0 <= i < directory.len()
            &&& (#[trigger] directory[i]).node_id == id
            &&& directory[i].state == NodeState::Active
        } {
        let i = choose|i: int|
            {
                &&& 0 <= i < directory.len()
                &&& (#[trigger] directory[i]).node_id == id
                &&& directory[i].state == NodeState::Active
            };
        assert(directory[i].node_id == id && directory[i].state is Active);
    }
}

/// Partitions are looked at in rising order, each with its placement.
pub proof fn law_partitions_are_ranked(m: Map<u16, Placement>, q: u16)
    ensures
        forall|i: int, j: int|
            0 <= i < j < ranked(m).len() ==> (#[trigger] ranked(m)[i]).0 < (
            #[trigger] ranked(m)[j]).0,
        forall|i: int|
            0 <= i < ranked(m).len() ==> m.contains_key((#[trigger] ranked(m)[i]).0) && ranked(
                m,
            )[i].1 == m[ranked(m)[i].0]@,
        m.contains_key(q) ==> ranked(m).contains((q, m[q]@)),
{
    let set = partition_set(m);
    let w = lemma_partition_list(m, 65536);
    assert(w.to_set() =~= set);
    lemma_rising_exists(w);
    let ids = rising_members(set);
    assert forall|i: int| 0 <= i < ids.len() implies #[trigger] set.contains(ids[i]) by {
        assert(ids.to_set().contains(ids[i]));
    }
    assert forall|i: int, j: int| 0 <= i < j < ranked(m).len() implies (
    #[trigger] ranked(m)[i]).0 < (#[trigger] ranked(m)[j]).0 by {
        assert(ids[i] < ids[j]);
        assert(set.contains(ids[i]) && set.contains(ids[j]));
    }
    assert forall|i: int| 0 <= i < ranked(m).len() implies m.contains_key(
        (#[trigger] ranked(m)[i]).0,
    ) && ranked(m)[i].1 == m[ranked(m)[i].0]@ by {
        assert(set.contains(ids[i]));
    }
    if m.contains_key(q) {
        assert(set.contains(q as u64));
        assert(ids.to_set().contains(q as u64));
        let i = ids.index_of(q as u64);
        assert(ranked(m)[i] == (q, m[q]@));
    }
}

proof fn lemma_partition_list(m: Map<u16, Placement>, n: u64) -> (w: Seq<u64>)
    requires
        n <= 65536,
    ensures
        forall|x: u64| #[trigger]
            w.to_set().contains(x) <==> x < n && x <= u16::MAX && m.contains_key(x as u16),
    decreases n,
{
    if n == 0 {
        Seq::empty()
    } else {
        let k = (n - 1) as u64;
        let head = lemma_partition_list(m, k);
        if m.contains_key(k as u16) {
            let w = head.push(k);
            assert forall|x: u64| #[trigger]
                w.to_set().contains(x) <==> x < n && x <= u16::MAX && m.contains_key(x as u16) by {
                assert(head.to_set().contains(x) <==> x < k && x <= u16::MAX && m.contains_key(
                    x as u16,
                ));
                if head.contains(x) {
                    let i = head.index_of(x);
                    assert(w[i] == x);
                }
                assert(w[head.len() as int] == k);
                if w.contains(x) && x != k {
                    let i = w.index_of(x);
                    assert(head[i] == x);
                }
            }
            w
        } else {
            assert forall|x: u64| #[trigger]
                head.to_set().contains(x) <==> x < n && x <= u16::MAX && m.contains_key(
                    x as u16,
                ) by {
                assert(head.to_set().contains(x) <==> x < k && x <= u16::MAX && m.contains_key(
                    x as u16,
                ));
            }
            head
        }
    }
}

/// A replica goes to the least loaded node that may take it, is drained from the lowest
/// voter that must give it up and relieves the most loaded voter; between equals the
/// lower id is taken. The partition to level is the one that relieves most, and of
/// equal ones the lower.
pub proof fn law_moves_take_the_extremes(
    nodes: Set<NodeId>,
    parts: Parts,
    voters: Seq<NodeId>,
    other: NodeId,
    i: int,
    j: int,
)
    ensures
        destination(nodes, parts, voters) matches Some(x) ==> nodes.contains(x) && !voters.contains(x)
            && (nodes.contains(other) && !voters.contains(other) ==> load(parts, x) <= load(
            parts,
            other,
        ) && (load(parts, x) == load(parts, other) ==> x <= other)),
        drained(nodes, voters) matches Some(x) ==> voters.contains(x) && !nodes.contains(x) && (
        voters.contains(other) && !nodes.contains(other) ==> x <= other),
        relieved(nodes, parts, voters) matches Some(x) ==> voters.contains(x) && nodes.contains(x)
            && (voters.contains(other) && nodes.contains(other) ==> load(parts, x) >= load(
            parts,
            other,
        ) && (load(parts, x) == load(parts, other) ==> x <= other)),
        best_level(nodes, parts, i) && 0 <= j < parts.len() && level_exchange(
            nodes,
            parts,
            j,
        ) is Some ==> relief(nodes, parts, i) >= relief(nodes, parts, j) && (relief(nodes, parts, i)
            == relief(nodes, parts, j) ==> i <= j),
        best_level(nodes, parts, i) ==> (level_exchange(nodes, parts, i) matches Some((x, y)) && load(
            parts,
            x,
        ) >= load(parts, y) + 2 && relief(nodes, parts, i) == load(parts, x)),
{
}

} // verus!
