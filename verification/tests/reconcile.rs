//! When a move may start, and startup reconciliation.
use std::collections::BTreeSet;

use dal::meta::reconcile::{gate, reconcile, GateDecision, ReconcileAction};
use dal::types::{GroupId, LogId, MovePlan, NodeId, Placement};

fn placement(voters: &[NodeId], target: Option<(&[NodeId], bool)>) -> Placement {
    Placement {
        voters: voters.to_vec(),
        voters_log_id: LogId::new(1, 1),
        move_plan: target.map(|(t, aborting)| MovePlan {
            plan_id: 42,
            target_voters: t.to_vec(),
            aborting,
        }),
    }
}

fn set(ids: &[NodeId]) -> BTreeSet<NodeId> {
    ids.iter().copied().collect()
}

#[test]
fn gate_accepts_healthy_single_voter_plan() {
    let p = placement(&[1, 2, 3], Some((&[1, 2, 4], false)));
    assert_eq!(gate(&p, &set(&[1, 2, 3])), GateDecision::Accept);
}

#[test]
fn gate_rejects_aborting() {
    let p = placement(&[1, 2, 3], Some((&[1, 2, 4], true)));
    assert_eq!(gate(&p, &set(&[1, 2, 3])), GateDecision::RejectAborting);
}

#[test]
fn gate_rejects_config_mismatch() {
    // Leader already moved to the joint/target config.
    let p = placement(&[1, 2, 3], Some((&[1, 2, 4], false)));
    assert_eq!(gate(&p, &set(&[1, 2, 4])), GateDecision::RejectConfigMismatch);
}

#[test]
fn gate_no_plan() {
    let p = placement(&[1, 2, 3], None);
    assert_eq!(gate(&p, &set(&[1, 2, 3])), GateDecision::NoPlan);
}

#[test]
fn gate_rejects_more_than_one_replacement() {
    let p = placement(&[1, 2, 3], Some((&[1, 4, 5], false)));
    assert_eq!(gate(&p, &set(&[1, 2, 3])), GateDecision::RejectNotSingleVoter);
}

#[test]
fn reconcile_covers_all_phases() {
    let p = placement(&[1, 2, 3], Some((&[1, 2, 4], false)));
    // learner stage / not started: committed == voters
    assert_eq!(reconcile(&p, &set(&[1, 2, 3])), ReconcileAction::ResumePlan);
    // joint config: union of voters and target
    assert_eq!(reconcile(&p, &set(&[1, 2, 3, 4])), ReconcileAction::CompleteJoint);
    // final config committed
    assert_eq!(reconcile(&p, &set(&[1, 2, 4])), ReconcileAction::Finalize);
    // nonsense config
    assert_eq!(reconcile(&p, &set(&[5, 6, 7])), ReconcileAction::Error);
}

#[test]
fn reconcile_no_plan_is_noop() {
    let p = placement(&[1, 2, 3], None);
    assert_eq!(reconcile(&p, &set(&[1, 2, 3])), ReconcileAction::NoPlan);
    let _ = GroupId::Meta;
}
