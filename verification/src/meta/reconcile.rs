//! The conditions under which a move starts, and what a recovering node does
//! for a group. Configurations are compared as voter sets; learners are ignored.
use crate::sets::{difference, matches_set, rising_ids};
use crate::types::{NodeId, Placement, PlacementView};
use std::collections::BTreeSet;
use vstd::prelude::*;

verus! {

/// Whether a data leader may start or resume a plan.
#[derive(Debug, Clone, Copy, PartialEq, Eq, Structural)]
pub enum GateDecision {
    /// The plan is live and the committed configuration equals its voters.
    Accept,
    /// No move is recorded for the group.
    NoPlan,
    /// The plan is marked aborting.
    RejectAborting,
    /// The committed voter set is not the record's.
    RejectConfigMismatch,
    /// The target does not replace exactly one voter.
    RejectNotSingleVoter,
}

impl GateDecision {
    /// The decision as messages show it.
    pub open spec fn spec_label(self) -> Seq<char> {
        match self {
            GateDecision::Accept => "Accept"@,
            GateDecision::NoPlan => "NoPlan"@,
            GateDecision::RejectAborting => "RejectAborting"@,
            GateDecision::RejectConfigMismatch => "RejectConfigMismatch"@,
            GateDecision::RejectNotSingleVoter => "RejectNotSingleVoter"@,
        }
    }

    /// The decision as messages show it.
    pub fn label(&self) -> (s: String)
        ensures
            s@ == self.spec_label(),
    {
        match self {
            GateDecision::Accept => "Accept".to_owned(),
            GateDecision::NoPlan => "NoPlan".to_owned(),
            GateDecision::RejectAborting => "RejectAborting".to_owned(),
            GateDecision::RejectConfigMismatch => "RejectConfigMismatch".to_owned(),
            GateDecision::RejectNotSingleVoter => "RejectNotSingleVoter".to_owned(),
        }
    }
}

/// What a recovering node should do for a group.
#[derive(Debug, Clone, Copy, PartialEq, Eq, Structural)]
pub enum ReconcileAction {
    NoPlan,
    /// The committed configuration equals the voters: resume the plan, or
    /// confirm its abort.
    ResumePlan,
    /// A joint configuration is in effect: complete the change.
    CompleteJoint,
    /// The committed configuration equals the target: finalize.
    Finalize,
    /// The committed configuration matches none of these.
    Error,
}

/// Whether one set of voters replaces exactly one voter of another.
pub open spec fn replaces_one(voters: Set<NodeId>, target: Set<NodeId>) -> bool {
    target.difference(voters).len() == 1 && voters.difference(target).len() == 1
}

/// Whether the move of a placement may start, given the committed voters.
pub open spec fn gate_decision(p: PlacementView, committed: Set<NodeId>) -> GateDecision {
    match p.move_plan {
        None => GateDecision::NoPlan,
        Some(plan) => if plan.aborting {
            GateDecision::RejectAborting
        } else if p.voters.to_set() != committed {
            GateDecision::RejectConfigMismatch
        } else if !replaces_one(p.voters.to_set(), plan.target_voters.to_set()) {
            GateDecision::RejectNotSingleVoter
        } else {
            GateDecision::Accept
        },
    }
}

/// What to do for a placement, given the committed voters.
pub open spec fn reconcile_action(p: PlacementView, committed: Set<NodeId>) -> ReconcileAction {
    match p.move_plan {
        None => ReconcileAction::NoPlan,
        Some(plan) => {
            let voters = p.voters.to_set();
            let target = plan.target_voters.to_set();
            if committed == voters {
                ReconcileAction::ResumePlan
            } else if committed == target {
                ReconcileAction::Finalize
            } else if committed == voters.union(target) {
                ReconcileAction::CompleteJoint
            } else {
                ReconcileAction::Error
            }
        },
    }
}

/// A data leader accepts a plan only when it is not aborting, its committed
/// configuration equals the record's voters, and the target replaces exactly one
/// voter.
pub fn gate(placement: &Placement, committed_voters: &BTreeSet<NodeId>) -> (d: GateDecision)
    ensures
        d == gate_decision(placement@, committed_voters@),
{
    let plan = match &placement.move_plan {
        None => {
            return GateDecision::NoPlan;
        },
        Some(plan) => plan,
    };
    if plan.aborting {
        return GateDecision::RejectAborting;
    }
    if !matches_set(&placement.voters, committed_voters) {
        return GateDecision::RejectConfigMismatch;
    }
    let voters = rising_ids(&placement.voters);
    let target = rising_ids(&plan.target_voters);
    let added = difference(&target, &voters);
    let removed = difference(&voters, &target);
    if added.len() != 1 || removed.len() != 1 {
        return GateDecision::RejectNotSingleVoter;
    }
    GateDecision::Accept
}

/// What to do for one group on startup. The committed voters are those of both
/// configurations while a joint one is in effect.
pub fn reconcile(placement: &Placement, committed_voters: &BTreeSet<NodeId>) -> (a: ReconcileAction)
    ensures
        a == reconcile_action(placement@, committed_voters@),
{
    let plan = match &placement.move_plan {
        None => {
            return ReconcileAction::NoPlan;
        },
        Some(plan) => plan,
    };
    if matches_set(&placement.voters, committed_voters) {
        return ReconcileAction::ResumePlan;
    }
    if matches_set(&plan.target_voters, committed_voters) {
        return ReconcileAction::Finalize;
    }
    let mut both: Vec<NodeId> = placement.voters.clone();
    let mut i: usize = 0;
    while i < plan.target_voters.len()
        invariant
            i <= plan.target_voters@.len(),
            both@ == placement.voters@ + plan.target_voters@.take(i as int),
        decreases plan.target_voters@.len() - i,
    {
        both.push(plan.target_voters[i]);
        assert(both@ =~= placement.voters@ + plan.target_voters@.take(i + 1));
        i += 1;
    }
    proof {
        let v = placement.voters@;
        let t = plan.target_voters@;
        assert(both@ =~= v + t);
        assert forall|x: NodeId| (v + t).to_set().contains(x) <==> v.to_set().union(
            t.to_set(),
        ).contains(x) by {
            if v.contains(x) {
                let k = v.index_of(x);
                assert((v + t)[k] == x);
            }
            if t.contains(x) {
                let k = t.index_of(x);
                assert((v + t)[v.len() + k] == x);
            }
            if (v + t).contains(x) {
                let k = (v + t).index_of(x);
                if k < v.len() {
                    assert(v[k] == x);
                } else {
                    assert(t[k - v.len()] == x);
                }
            }
        }
        assert(both@.to_set() =~= v.to_set().union(t.to_set()));
    }
    if matches_set(&both, committed_voters) {
        ReconcileAction::CompleteJoint
    } else {
        ReconcileAction::Error
    }
}

/// A plan that may start is one that a restart resumes.
pub proof fn law_accepted_plans_resume(p: PlacementView, committed: Set<NodeId>)
    requires
        gate_decision(p, committed) is Accept,
    ensures
        reconcile_action(p, committed) is ResumePlan,
{
}

/// The phases of a move are told apart: with a target that replaces one voter,
/// the voters, the joint configuration and the target are three different sets,
/// and each is met with its own action.
pub proof fn law_phases_are_told_apart(p: PlacementView)
    requires
        p.move_plan matches Some(plan) && replaces_one(
            p.voters.to_set(),
            plan.target_voters.to_set(),
        ),
    ensures
        ({
            let voters = p.voters.to_set();
            let target = p.move_plan->0.target_voters.to_set();
            &&& reconcile_action(p, voters) is ResumePlan
            &&& reconcile_action(p, target) is Finalize
            &&& reconcile_action(p, voters.union(target)) is CompleteJoint
        }),
{
    let voters = p.voters.to_set();
    let target = p.move_plan->0.target_voters.to_set();
    let added = target.difference(voters);
    let removed = voters.difference(target);
    let a = added.choose();
    let r = removed.choose();
    assert(added.contains(a)) by {
        if added =~= Set::<NodeId>::empty() {
        }
    }
    assert(removed.contains(r)) by {
        if removed =~= Set::<NodeId>::empty() {
        }
    }
    assert(target.contains(a) && !voters.contains(a));
    assert(voters.contains(r) && !target.contains(r));
    assert(voters.union(target).contains(a) && voters.union(target).contains(r));
}

/// A move is accepted if and only if a plan stands that is not aborting, the
/// committed voters are the recorded ones, and exactly one voter is taken in and
/// one let go. Each refusal names the first of these that does not hold.
pub proof fn law_gate_accepts(p: PlacementView, committed: Set<NodeId>)
    ensures
        ({
            let plan = p.move_plan->0;
            let d = gate_decision(p, committed);
            let settled = p.voters.to_set() == committed;
            let single = plan.target_voters.to_set().difference(p.voters.to_set()).len() == 1
                && p.voters.to_set().difference(plan.target_voters.to_set()).len() == 1;
            &&& d is NoPlan <==> p.move_plan is None
            &&& d is RejectAborting <==> p.move_plan is Some && plan.aborting
            &&& d is RejectConfigMismatch <==> p.move_plan is Some && !plan.aborting && !settled
            &&& d is RejectNotSingleVoter <==> p.move_plan is Some && !plan.aborting && settled
                && !single
            &&& d is Accept <==> p.move_plan is Some && !plan.aborting && settled && single
        }),
{
}

/// The committed voters tell the phase of a plan: the recorded voters that the move
/// is yet to begin, the target that it is done, both together that it is half way,
/// and anything else that it is none of the plan's.
pub proof fn law_phase_follows_the_voters(p: PlacementView, committed: Set<NodeId>)
    ensures
        ({
            let voters = p.voters.to_set();
            let target = p.move_plan->0.target_voters.to_set();
            let a = reconcile_action(p, committed);
            &&& a is NoPlan <==> p.move_plan is None
            &&& a is ResumePlan <==> p.move_plan is Some && committed == voters
            &&& a is Finalize <==> p.move_plan is Some && committed == target && committed != voters
            &&& a is CompleteJoint <==> p.move_plan is Some && committed != voters && committed
                != target && committed == voters.union(target)
            &&& a is Error <==> p.move_plan is Some && committed != voters && committed != target
                && committed != voters.union(target)
        }),
{
}

} // verus!
