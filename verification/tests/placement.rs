//! The placement planner.
use std::collections::{BTreeMap, BTreeSet};

use dal::placement::{propose, PlanProposal};
use dal::types::{GroupId, LogId, MovePlan, NodeDirectoryEntry, NodeId, NodeState, Placement};

fn node(id: NodeId, state: NodeState) -> NodeDirectoryEntry {
    NodeDirectoryEntry {
        node_id: id,
        control_addr: format!("c{id}"),
        bulk_addr: format!("b{id}"),
        state,
        incarnation: 1,
    }
}

fn active(ids: &[NodeId]) -> Vec<NodeDirectoryEntry> {
    ids.iter().map(|&i| node(i, NodeState::Active)).collect()
}

fn placement(voters: &[NodeId]) -> Placement {
    Placement {
        voters: voters.to_vec(),
        voters_log_id: LogId::new(1, 1),
        move_plan: None,
    }
}

fn map(entries: &[(u16, &[NodeId])]) -> BTreeMap<u16, Placement> {
    entries.iter().map(|(p, v)| (*p, placement(v))).collect()
}

fn partition_of(p: &PlanProposal) -> u16 {
    match p.group {
        GroupId::Data(id) => id,
        GroupId::Meta => panic!("expected data group"),
    }
}

#[test]
fn balanced_cluster_proposes_nothing() {
    let dir = active(&[1, 2, 3]);
    let pl = map(&[(0, &[1, 2, 3]), (1, &[1, 2, 3])]);
    assert_eq!(propose(&dir, &pl, 3), None);
}

#[test]
fn too_few_eligible_nodes_proposes_nothing() {
    let dir = active(&[1, 2]);
    let pl = map(&[(0, &[1, 2, 3])]);
    assert_eq!(propose(&dir, &pl, 3), None);
}

#[test]
fn drains_an_ineligible_voter() {
    // Node 3 is Down; node 4 is a fresh Active node. Partition 0's replica
    // on 3 must move to 4.
    let mut dir = active(&[1, 2, 4]);
    dir.push(node(3, NodeState::Down));
    let pl = map(&[(0, &[1, 2, 3])]);
    let proposal = propose(&dir, &pl, 3).unwrap();
    assert_eq!(proposal.group, GroupId::Data(0));
    assert_eq!(proposal.target_voters, vec![1, 2, 4]);
}

#[test]
fn proposal_differs_by_exactly_one_voter() {
    let dir = active(&[1, 2, 3, 4]);
    // 4 hosts nothing; 1/2/3 are overloaded, so one slot should move to 4.
    let pl = map(&[(0, &[1, 2, 3]), (1, &[1, 2, 3]), (2, &[1, 2, 3])]);
    let proposal = propose(&dir, &pl, 3).unwrap();
    let before: BTreeSet<_> = pl[&partition_of(&proposal)].voters.iter().copied().collect();
    let after: BTreeSet<_> = proposal.target_voters.iter().copied().collect();
    assert_eq!(after.difference(&before).count(), 1);
    assert_eq!(before.difference(&after).count(), 1);
    assert_eq!(proposal.target_voters.len(), 3);
}

#[test]
fn is_deterministic() {
    let dir = active(&[1, 2, 3, 4, 5]);
    let pl = map(&[
        (0, &[1, 2, 3]),
        (1, &[1, 2, 3]),
        (2, &[1, 2, 3]),
        (3, &[1, 2, 3]),
    ]);
    let a = propose(&dir, &pl, 3);
    let b = propose(&dir, &pl, 3);
    assert_eq!(a, b);
    assert!(a.is_some());
}

#[test]
fn skips_partition_with_move_in_flight() {
    let dir = active(&[1, 2, 4]);
    let mut m = node(3, NodeState::Down);
    m.state = NodeState::Down;
    let mut dir2 = dir.clone();
    dir2.push(m);
    let mut pl = map(&[(0, &[1, 2, 3])]);
    pl.get_mut(&0).unwrap().move_plan = Some(MovePlan {
        plan_id: 7,
        target_voters: vec![1, 2, 4],
        aborting: false,
    });
    // The only draining candidate is already moving: nothing to propose.
    assert_eq!(propose(&dir2, &pl, 3), None);
}

#[test]
fn repeated_proposals_reach_a_balance() {
    let dir = active(&[1, 2, 3, 4]);
    let mut pl = map(&[
        (0, &[1, 2, 3]),
        (1, &[1, 2, 3]),
        (2, &[1, 2, 3]),
        (3, &[1, 2, 3]),
    ]);
    let mut moves = 0;
    while let Some(p) = propose(&dir, &pl, 3) {
        pl.get_mut(&partition_of(&p)).unwrap().voters = p.target_voters.clone();
        moves += 1;
        assert!(moves < 20);
    }
    let mut load: BTreeMap<NodeId, usize> = BTreeMap::new();
    for p in pl.values() {
        for v in &p.voters {
            *load.entry(*v).or_default() += 1;
        }
    }
    assert_eq!(load.values().max(), Some(&3));
    assert_eq!(load.values().min(), Some(&3));
}

fn moving(voters: &[NodeId], target: &[NodeId]) -> Placement {
    let target_voters = target.to_vec();
    let plan = MovePlan { plan_id: 7, target_voters, aborting: false };
    Placement { move_plan: Some(plan), ..placement(voters) }
}

#[test]
fn moving_partitions_count_toward_no_load() {
    // Without the moving partition the two nodes differ by one replica only.
    let dir = active(&[1, 2]);
    let mut pl = map(&[(0, &[1])]);
    pl.insert(1, moving(&[1], &[2]));
    assert_eq!(propose(&dir, &pl, 1), None);
    // A second partition at rest makes the gap two.
    pl.insert(2, placement(&[1]));
    let proposal = propose(&dir, &pl, 1).unwrap();
    assert_eq!((partition_of(&proposal), proposal.target_voters), (0, vec![2]));
    // Nor do moving replicas make a node a worse place to move to.
    let mut dir = active(&[1, 2]);
    dir.push(node(3, NodeState::Down));
    let mut pl = map(&[(0, &[3]), (1, &[2])]);
    pl.insert(2, moving(&[1], &[2]));
    pl.insert(3, moving(&[1], &[2]));
    assert_eq!(propose(&dir, &pl, 1).unwrap().target_voters, vec![1]);
}
