//! The steps of a fenced move and of its abort, decided from the placement
//! record and the data group's confirmed configuration. Every step can be taken
//! again after a crash.
use crate::error::{Error, ErrorView};
use crate::meta::laws::lemma_rising_exists;
use crate::meta::reconcile::{
    gate, gate_decision, reconcile, reconcile_action, replaces_one, GateDecision, ReconcileAction,
};
use crate::meta::state_machine::{MetaApplyResult, ResultView};
use crate::sets::{
    difference, lemma_rising_set, lemma_sorted, lemma_without, matches_set, rising, rising_ids, rising_members, sort_ids, sorted,
    without, without_id,
};
use crate::text::{decimal, prefixed, to_decimal};
use crate::types::{
    DataConfigObservation, GroupId, LogId, MetaCommand, MetaCommandView, NodeId, NodeState,
    ObservationView, Placement, PlacementView,
};
use std::collections::BTreeSet;
use vstd::prelude::*;

verus! {

fn raft_error(text: &str) -> (e: Error)
    ensures
        e@ == ErrorView::Raft(text@),
{
    Error::Raft(text.to_owned())
}

/// A placement's view, if there is one.
pub open spec fn placement_view(p: Option<&Placement>) -> Option<PlacementView> {
    match p {
        Some(p) => Some(p@),
        None => None,
    }
}

/// Whether a step that can fail gives what a decision says.
pub open spec fn gives<T>(r: Result<T, Error>, want: Result<T, ErrorView>) -> bool {
    match (r, want) {
        (Ok(a), Ok(b)) => a == b,
        (Err(e), Err(f)) => e@ == f,
        _ => false,
    }
}

/// A committed command must be applied or an idempotent retry; a refusal is an
/// error.
pub open spec fn accepted(result: ResultView, what: Seq<char>) -> Result<(), ErrorView> {
    match result {
        ResultView::Applied => Ok(()),
        ResultView::NoOp => Ok(()),
        ResultView::Rejected(r) => Err(ErrorView::Raft(what + " rejected: "@ + r.spec_label())),
    }
}

/// Accept the outcome of a committed command, or say what refused it.
pub fn accept(result: &MetaApplyResult, what: &str) -> (r: Result<(), Error>)
    ensures
        gives(r, accepted(result@, what@)),
{
    match result {
        MetaApplyResult::Applied => Ok(()),
        MetaApplyResult::NoOp => Ok(()),
        MetaApplyResult::Rejected(reason) => {
            let mut s = what.to_owned();
            s.append(" rejected: ");
            s.append(reason.label().as_str());
            Err(Error::Raft(s))
        },
    }
}

/// The command that plans a move. The meta group gives the plan its id.
pub fn plan_command(group: GroupId, target_voters: &Vec<NodeId>) -> (c: MetaCommand)
    ensures
        c@ == (MetaCommandView::CreatePlan { group, plan_id: 0, target_voters: target_voters@ }),
{
    MetaCommand::CreatePlan { group, plan_id: 0, target_voters: target_voters.clone() }
}

/// The id of the plan that a placement holds after one was created.
pub open spec fn created_plan(p: Option<PlacementView>) -> Result<u64, ErrorView> {
    match p {
        None => Err(ErrorView::Raft("placement missing after CreatePlan"@)),
        Some(p) => match p.move_plan {
            None => Err(ErrorView::Raft("move missing after CreatePlan"@)),
            Some(plan) => Ok(plan.plan_id),
        },
    }
}

/// The id of the plan that was just created.
pub fn create_plan(placement: Option<&Placement>) -> (r: Result<u64, Error>)
    ensures
        gives(r, created_plan(placement_view(placement))),
{
    match placement {
        None => Err(raft_error("placement missing after CreatePlan")),
        Some(p) => match &p.move_plan {
            None => Err(raft_error("move missing after CreatePlan")),
            Some(plan) => Ok(plan.plan_id),
        },
    }
}

/// The command that aborts a plan. It cannot be taken back.
pub fn mark_aborting(group: GroupId, plan_id: u64) -> (c: MetaCommand)
    ensures
        c@ == (MetaCommandView::MarkAborting { group, plan_id }),
{
    MetaCommand::MarkAborting { group, plan_id }
}

/// The command that moves a node to a state.
pub fn set_node_state(node_id: NodeId, state: NodeState, incarnation: u64) -> (c: MetaCommand)
    ensures
        c@ == (MetaCommandView::SetNodeState { node_id, state, incarnation }),
{
    MetaCommand::SetNodeState { node_id, state, incarnation }
}

/// The node that a move adds: the lowest that the target holds over the voters.
pub open spec fn added_voter(voters: Seq<NodeId>, target: Seq<NodeId>) -> NodeId {
    rising_members(target.to_set().difference(voters.to_set()))[0]
}

/// Why a move may not start, or the learner that it adds first.
pub open spec fn move_start(p: Option<PlacementView>, committed: Set<NodeId>) -> Result<
    NodeId,
    ErrorView,
> {
    match p {
        None => Err(ErrorView::Raft("no placement for move"@)),
        Some(p) => {
            let decision = gate_decision(p, committed);
            if decision is Accept {
                Ok(added_voter(p.voters, p.move_plan->0.target_voters))
            } else {
                Err(ErrorView::Raft("move gate refused: "@ + decision.spec_label()))
            }
        },
    }
}

proof fn lemma_added(target: Seq<NodeId>, voters: Seq<NodeId>, out: Seq<NodeId>)
    requires
        rising(out),
        out.to_set() == target.to_set().difference(voters.to_set()),
    ensures
        rising_members(target.to_set().difference(voters.to_set())) == out,
{
    lemma_rising_set(out);
}

/// Begin a move: check that it may start, and name the learner to add. It then catches up,
/// and the voters are changed to the plan's target.
pub fn execute_move(placement: Option<&Placement>, committed: &BTreeSet<NodeId>) -> (r: Result<
    NodeId,
    Error,
>)
    ensures
        gives(r, move_start(placement_view(placement), committed@)),
{
    let p = match placement {
        None => {
            return Err(raft_error("no placement for move"));
        },
        Some(p) => p,
    };
    let decision = gate(p, committed);
    if let (GateDecision::Accept, Some(plan)) = (decision, &p.move_plan) {
        let target = rising_ids(&plan.target_voters);
        let added = difference(&target, &p.voters);
        proof {
            lemma_added(plan.target_voters@, p.voters@, added@);
        }
        return Ok(added[0]);
    }
    Err(Error::Raft(prefixed("move gate refused: ", decision.label().as_str())))
}

/// The report that a data group's configuration is the target.
pub open spec fn finalize_report(
    group: GroupId,
    plan_id: u64,
    target: Seq<NodeId>,
    config_log_id: Option<LogId>,
) -> Result<MetaCommandView, ErrorView> {
    match config_log_id {
        None => Err(ErrorView::Raft("committed config has no log id"@)),
        Some(log_id) => Ok(
            MetaCommandView::FinalizePlan {
                group,
                plan_id,
                observation: ObservationView {
                    group,
                    plan_id,
                    voter_set: target,
                    config_log_id: log_id,
                },
            },
        ),
    }
}

/// Report that the target configuration is committed.
pub fn finalize(
    group: GroupId,
    plan_id: u64,
    target: &Vec<NodeId>,
    config_log_id: Option<LogId>,
) -> (r: Result<MetaCommand, Error>)
    ensures
        match (r, finalize_report(group, plan_id, target@, config_log_id)) {
            (Ok(c), Ok(v)) => c@ == v,
            (Err(e), Err(f)) => e@ == f,
            _ => false,
        },
{
    match config_log_id {
        None => Err(raft_error("committed config has no log id")),
        Some(log_id) => Ok(
            MetaCommand::FinalizePlan {
                group,
                plan_id,
                observation: DataConfigObservation {
                    group,
                    plan_id,
                    voter_set: target.clone(),
                    config_log_id: log_id,
                },
            },
        ),
    }
}

/// What to do next for a move that a crash may have left anywhere.
#[derive(Debug, Clone, Copy, PartialEq, Eq, Structural)]
pub enum ResumeStep {
    /// Nothing is planned.
    Nothing,
    /// Carry the move out from the start.
    Move { plan_id: u64 },
    /// Carry the abort out.
    Abort { plan_id: u64 },
    /// Complete the change of voters, then carry the abort out.
    CompleteThenAbort { plan_id: u64 },
    /// Complete the change of voters, then report the target.
    CompleteThenFinalize { plan_id: u64 },
    /// Report the target.
    Finalize { plan_id: u64 },
}

/// How a move is resumed.
pub open spec fn resume_decision(p: Option<PlacementView>, committed: Set<NodeId>) -> Result<
    ResumeStep,
    ErrorView,
> {
    match p {
        None => Ok(ResumeStep::Nothing),
        Some(p) => match p.move_plan {
            None => Ok(ResumeStep::Nothing),
            Some(plan) => {
                let plan_id = plan.plan_id;
                match reconcile_action(p, committed) {
                    ReconcileAction::NoPlan => Ok(ResumeStep::Nothing),
                    ReconcileAction::ResumePlan => if plan.aborting {
                        Ok(ResumeStep::Abort { plan_id })
                    } else {
                        Ok(ResumeStep::Move { plan_id })
                    },
                    ReconcileAction::CompleteJoint => if plan.aborting {
                        Ok(ResumeStep::CompleteThenAbort { plan_id })
                    } else {
                        Ok(ResumeStep::CompleteThenFinalize { plan_id })
                    },
                    ReconcileAction::Finalize => if plan.aborting {
                        Ok(ResumeStep::Abort { plan_id })
                    } else {
                        Ok(ResumeStep::Finalize { plan_id })
                    },
                    ReconcileAction::Error => Err(
                        ErrorView::Raft("reconcile: committed config matches no plan phase"@),
                    ),
                }
            },
        },
    }
}

/// Resume whatever move a group has in flight.
pub fn resume_move(placement: Option<&Placement>, committed: &BTreeSet<NodeId>) -> (r: Result<
    ResumeStep,
    Error,
>)
    ensures
        gives(r, resume_decision(placement_view(placement), committed@)),
{
    let p = match placement {
        None => {
            return Ok(ResumeStep::Nothing);
        },
        Some(p) => p,
    };
    let plan = match &p.move_plan {
        None => {
            return Ok(ResumeStep::Nothing);
        },
        Some(plan) => plan,
    };
    let plan_id: u64 = plan.plan_id;
    match reconcile(p, committed) {
        ReconcileAction::NoPlan => Ok(ResumeStep::Nothing),
        ReconcileAction::ResumePlan => if plan.aborting {
            Ok(ResumeStep::Abort { plan_id })
        } else {
            Ok(ResumeStep::Move { plan_id })
        },
        ReconcileAction::CompleteJoint => if plan.aborting {
            Ok(ResumeStep::CompleteThenAbort { plan_id })
        } else {
            Ok(ResumeStep::CompleteThenFinalize { plan_id })
        },
        ReconcileAction::Finalize => if plan.aborting {
            Ok(ResumeStep::Abort { plan_id })
        } else {
            Ok(ResumeStep::Finalize { plan_id })
        },
        ReconcileAction::Error => Err(
            raft_error("reconcile: committed config matches no plan phase"),
        ),
    }
}

/// How an abort is resolved: the learners to remove first, and the report.
pub struct AbortSteps {
    pub learners: Vec<NodeId>,
    pub report: MetaCommand,
}

/// The content of an abort's steps.
#[verifier::ext_equal]
pub struct AbortView {
    pub learners: Seq<NodeId>,
    pub report: MetaCommandView,
}

impl View for AbortSteps {
    type V = AbortView;

    open spec fn view(&self) -> AbortView {
        AbortView { learners: self.learners@, report: self.report@ }
    }
}

/// How an aborting plan is resolved. A configuration that still equals the
/// voters rolls back: the target's learners go, and the voters are reported. One
/// that already equals the target is reported as completed. A joint one must be
/// completed first.
pub open spec fn abort_decision(
    p: Option<PlacementView>,
    committed: Set<NodeId>,
    config_log_id: Option<LogId>,
    group: GroupId,
    plan_id: u64,
) -> Result<AbortView, ErrorView> {
    match p {
        None => Err(ErrorView::Raft("no placement for abort"@)),
        Some(p) => match p.move_plan {
            None => Err(ErrorView::Raft("no move to abort"@)),
            Some(plan) => if !plan.aborting {
                Err(ErrorView::Raft("plan is not marked aborting"@))
            } else {
                match config_log_id {
                    None => Err(ErrorView::Raft("committed config has no log id"@)),
                    Some(log_id) => {
                        let voters = p.voters.to_set();
                        let target = plan.target_voters.to_set();
                        if committed == voters {
                            Ok(
                                AbortView {
                                    learners: rising_members(target.difference(voters)),
                                    report: abort_report(group, plan_id, p.voters, log_id),
                                },
                            )
                        } else if committed == target {
                            Ok(
                                AbortView {
                                    learners: Seq::empty(),
                                    report: abort_report(
                                        group,
                                        plan_id,
                                        plan.target_voters,
                                        log_id,
                                    ),
                                },
                            )
                        } else {
                            Err(
                                ErrorView::Raft(
                                    "joint config in flight; leader must complete the change first"@,
                                ),
                            )
                        }
                    },
                }
            },
        },
    }
}

/// The report that resolves an abort.
pub open spec fn abort_report(
    group: GroupId,
    plan_id: u64,
    voter_set: Seq<NodeId>,
    config_log_id: LogId,
) -> MetaCommandView {
    MetaCommandView::AbortReport {
        group,
        plan_id,
        observation: ObservationView { group, plan_id, voter_set, config_log_id },
    }
}

/// Resolve an aborting plan.
pub fn execute_abort(
    placement: Option<&Placement>,
    committed: &BTreeSet<NodeId>,
    config_log_id: Option<LogId>,
    group: GroupId,
    plan_id: u64,
) -> (r: Result<AbortSteps, Error>)
    ensures
        match (
            r,
            abort_decision(
                placement_view(placement),
                committed@,
                config_log_id,
                group,
                plan_id,
            ),
        ) {
            (Ok(s), Ok(v)) => s@ == v,
            (Err(e), Err(f)) => e@ == f,
            _ => false,
        },
{
    let p = match placement {
        None => {
            return Err(raft_error("no placement for abort"));
        },
        Some(p) => p,
    };
    let plan = match &p.move_plan {
        None => {
            return Err(raft_error("no move to abort"));
        },
        Some(plan) => plan,
    };
    if !plan.aborting {
        return Err(raft_error("plan is not marked aborting"));
    }
    let log_id = match config_log_id {
        None => {
            return Err(raft_error("committed config has no log id"));
        },
        Some(log_id) => log_id,
    };
    let mut learners: Vec<NodeId> = Vec::new();
    let voter_set: Vec<NodeId>;
    if matches_set(&p.voters, committed) {
        let target = rising_ids(&plan.target_voters);
        learners = difference(&target, &p.voters);
        proof {
            lemma_added(plan.target_voters@, p.voters@, learners@);
        }
        voter_set = p.voters.clone();
    } else if matches_set(&plan.target_voters, committed) {
        voter_set = plan.target_voters.clone();
    } else {
        return Err(
            raft_error("joint config in flight; leader must complete the change first"),
        );
    }
    Ok(
        AbortSteps {
            learners,
            report: MetaCommand::AbortReport {
                group,
                plan_id,
                observation: DataConfigObservation {
                    group,
                    plan_id,
                    voter_set,
                    config_log_id: log_id,
                },
            },
        },
    )
}

/// The voters that replace one that drains: the others and the replacement, in
/// rising order.
pub open spec fn drain_voters(voters: Seq<NodeId>, draining: NodeId, replacement: NodeId) -> Seq<
    NodeId,
> {
    sorted(without(voters, draining).push(replacement))
}

/// The target of a move that swaps a draining voter for a replacement.
pub fn drain_target(voters: &Vec<NodeId>, draining: NodeId, replacement: NodeId) -> (target: Vec<
    NodeId,
>)
    ensures
        target@ == drain_voters(voters@, draining, replacement),
{
    let mut list = without_id(voters, draining);
    list.push(replacement);
    sort_ids(&list)
}

/// Begin to drain a node: it is marked under the incarnation it is registered
/// with, if it is registered.
pub fn drain_partition(draining: NodeId, registered: Option<u64>) -> (r: Result<MetaCommand, Error>)
    ensures
        match registered {
            Some(incarnation) => r matches Ok(c) && c@ == (MetaCommandView::SetNodeState {
                node_id: draining,
                state: NodeState::Draining,
                incarnation,
            }),
            None => r matches Err(e) && e@ == ErrorView::Raft(
                "draining node "@ + decimal(draining as nat) + " not in directory"@,
            ),
        },
{
    match registered {
        Some(incarnation) => Ok(set_node_state(draining, NodeState::Draining, incarnation)),
        None => {
            let mut s = prefixed("draining node ", to_decimal(draining as u128).as_str());
            s.append(" not in directory");
            Err(Error::Raft(s))
        },
    }
}

/// The voters that a drained group is moved to, if its placement is known.
pub fn drain_plan(placement: Option<&Placement>, draining: NodeId, replacement: NodeId) -> (r: Result<
    Vec<NodeId>,
    Error,
>)
    ensures
        match placement_view(placement) {
            Some(p) => r matches Ok(target) && target@ == drain_voters(
                p.voters,
                draining,
                replacement,
            ),
            None => r matches Err(e) && e@ == ErrorView::Raft("no placement to drain"@),
        },
{
    match placement {
        Some(p) => Ok(drain_target(&p.voters, draining, replacement)),
        None => Err(raft_error("no placement to drain")),
    }
}

// -- laws --------------------------------------------------------------------

/// A move that may start is one that replaces a single voter: the learner is the
/// only node that the target adds.
pub proof fn law_moves_add_one_learner(p: PlacementView, committed: Set<NodeId>, learner: NodeId)
    requires
        move_start(Some(p), committed) == Ok::<NodeId, ErrorView>(learner),
    ensures
        p.move_plan is Some,
        ({
            let voters = p.voters.to_set();
            let target = p.move_plan->0.target_voters.to_set();
            &&& committed == voters
            &&& replaces_one(voters, target)
            &&& target.difference(voters) == set![learner]
        }),
{
    let voters = p.voters.to_set();
    let target = p.move_plan->0.target_voters.to_set();
    let added = target.difference(voters);
    let x = added.choose();
    assert(added.contains(x)) by {
        if added =~= Set::<NodeId>::empty() {
        }
    }
    let one = seq![x];
    assert(one.to_set().contains(one[0]));
    assert forall|y: NodeId| one.to_set().contains(y) <==> y == x by {
        if one.to_set().contains(y) {
            let k = one.index_of(y);
        }
    }
    assert(added.remove(x).len() == 0);
    assert(added =~= one.to_set()) by {
        assert forall|y: NodeId| added.contains(y) implies y == x by {
            if y != x {
                assert(added.remove(x).contains(y));
            }
        }
    }
    lemma_rising_set(one);
    assert(added =~= set![learner]);
}

/// A resumed move goes where the recorded state and the committed configuration
/// agree to: an aborting plan is never carried forward, and a plan that is not
/// aborting is never rolled back.
pub proof fn law_resume_respects_the_abort(
    p: PlacementView,
    committed: Set<NodeId>,
    step: ResumeStep,
)
    requires
        resume_decision(Some(p), committed) == Ok::<ResumeStep, ErrorView>(step),
        p.move_plan is Some,
    ensures
        p.move_plan->0.aborting ==> step is Abort || step is CompleteThenAbort,
        !p.move_plan->0.aborting ==> step is Move || step is CompleteThenFinalize || step is Finalize,
{
}

/// A move that was interrupted is taken up where the committed voters show it to
/// be, under its own id: begun anew from the recorded voters, completed from the
/// joint ones, reported from the target. A plan marked aborting is aborted instead,
/// after a joint configuration is completed. Without a plan there is nothing to do.
pub proof fn law_interrupted_moves_are_taken_up(p: Option<PlacementView>, committed: Set<NodeId>)
    ensures
        ({
            let plan = p->0.move_plan->0;
            let plan_id = plan.plan_id;
            let voters = p->0.voters.to_set();
            let target = plan.target_voters.to_set();
            let planned = p is Some && p->0.move_plan is Some;
            let step = resume_decision(p, committed);
            let joint = committed == voters.union(target) && committed != voters && committed
                != target;
            &&& step == Ok::<ResumeStep, ErrorView>(ResumeStep::Nothing) <==> !planned
            &&& planned && !plan.aborting && committed == voters ==> step == Ok::<
                ResumeStep,
                ErrorView,
            >(ResumeStep::Move { plan_id })
            &&& planned && !plan.aborting && joint ==> step == Ok::<ResumeStep, ErrorView>(
                ResumeStep::CompleteThenFinalize { plan_id },
            )
            &&& planned && !plan.aborting && committed == target && committed != voters ==> step
                == Ok::<ResumeStep, ErrorView>(ResumeStep::Finalize { plan_id })
            &&& planned && plan.aborting && (committed == voters || committed == target) ==> step
                == Ok::<ResumeStep, ErrorView>(ResumeStep::Abort { plan_id })
            &&& planned && plan.aborting && joint ==> step == Ok::<ResumeStep, ErrorView>(
                ResumeStep::CompleteThenAbort { plan_id },
            )
            &&& step is Err <==> planned && committed != voters && committed != target && committed
                != voters.union(target)
        }),
{
}

/// A move starts if and only if its placement stands and accepts it.
pub proof fn law_moves_start_when_accepted(p: Option<PlacementView>, committed: Set<NodeId>)
    ensures
        move_start(p, committed) is Ok <==> p is Some && p->0.move_plan is Some
            && !p->0.move_plan->0.aborting && committed == p->0.voters.to_set()
            && p->0.move_plan->0.target_voters.to_set().difference(p->0.voters.to_set()).len() == 1
            && p->0.voters.to_set().difference(p->0.move_plan->0.target_voters.to_set()).len() == 1,
{
}

/// An abort is reported if and only if a plan marked aborting stands and the
/// committed voters, at a known position, are the recorded ones or the target. The
/// report is what is committed; the learners to let go are the voters that the
/// move would have taken in, where it did not.
pub proof fn law_aborts_report_what_is_committed(
    p: Option<PlacementView>,
    committed: Set<NodeId>,
    config_log_id: Option<LogId>,
    group: GroupId,
    plan_id: u64,
)
    ensures
        ({
            let plan = p->0.move_plan->0;
            let voters = p->0.voters.to_set();
            let target = plan.target_voters.to_set();
            let d = abort_decision(p, committed, config_log_id, group, plan_id);
            &&& d is Ok <==> p is Some && p->0.move_plan is Some && plan.aborting && config_log_id is Some
                && (committed == voters || committed == target)
            &&& d matches Ok(steps) ==> {
                &&& steps.report matches MetaCommandView::AbortReport {
                    group: g,
                    plan_id: id,
                    observation,
                } && g == group && id == plan_id && observation.group == group
                    && observation.plan_id == plan_id && Some(observation.config_log_id)
                    == config_log_id && observation.voter_set.to_set() == committed
                &&& committed == target && committed != voters ==> steps.learners.len() == 0
                &&& committed == voters ==> rising(steps.learners) && steps.learners.to_set()
                    == target.difference(voters)
            }
        }),
{
    if p is Some && p->0.move_plan is Some {
        let w = lemma_difference_list(
            p->0.move_plan->0.target_voters,
            p->0.voters.to_set(),
        );
        lemma_rising_exists(w);
    }
}

/// The members of a list that a set does not hold, as a list.
pub(crate) proof fn lemma_difference_list(list: Seq<NodeId>, set: Set<NodeId>) -> (w: Seq<NodeId>)
    ensures
        w.to_set() == list.to_set().difference(set),
    decreases list.len(),
{
    if list.len() == 0 {
        assert(list.to_set().difference(set) =~= list.to_set());
        list
    } else {
        let init = list.drop_last();
        let last = list.last();
        let w = lemma_difference_list(init, set);
        assert(list =~= init.push(last));
        assert forall|v: NodeId| #[trigger] list.contains(v) <==> init.contains(v) || v == last by {
            if init.contains(v) {
                let k = init.index_of(v);
                assert(list[k] == v);
            }
            if v == last {
                assert(list[list.len() - 1] == v);
            }
            if list.contains(v) && v != last {
                let k = list.index_of(v);
                assert(init[k] == v);
            }
        }
        if set.contains(last) {
            assert(w.to_set() =~= list.to_set().difference(set)) by {
                assert forall|v: NodeId| w.to_set().contains(v) <==> list.to_set().difference(
                    set,
                ).contains(v) by {
                    assert(w.to_set().contains(v) == init.to_set().difference(set).contains(v));
                    assert(init.to_set().contains(v) == init.contains(v));
                    assert(list.to_set().contains(v) == list.contains(v));
                }
            }
            w
        } else {
            let x = w.push(last);
            assert(x.to_set() =~= list.to_set().difference(set)) by {
                assert forall|v: NodeId| x.to_set().contains(v) <==> list.to_set().difference(
                    set,
                ).contains(v) by {
                    assert(w.to_set().contains(v) == init.to_set().difference(set).contains(v));
                    assert(init.to_set().contains(v) == init.contains(v));
                    assert(list.to_set().contains(v) == list.contains(v));
                    if w.contains(v) {
                        let k = w.index_of(v);
                        assert(x[k] == v);
                    }
                    assert(x[w.len() as int] == last);
                    if x.contains(v) && v != last {
                        let k = x.index_of(v);
                        assert(w[k] == v);
                    }
                }
            }
            x
        }
    }
}

/// Draining a node leaves the group the other voters and the replacement, in rising
/// order, and the node itself out.
pub proof fn law_draining_replaces_the_node(
    voters: Seq<NodeId>,
    draining: NodeId,
    replacement: NodeId,
    v: NodeId,
)
    requires
        replacement != draining,
    ensures
        ({
            let target = drain_voters(voters, draining, replacement);
            &&& target.contains(v) <==> v == replacement || (voters.contains(v) && v != draining)
            &&& forall|i: int, j: int| 0 <= i < j < target.len() ==> target[i] <= target[j]
        }),
{
    let rest = without(voters, draining);
    lemma_without(voters, draining);
    lemma_sorted(rest.push(replacement));
    let target = drain_voters(voters, draining, replacement);
    assert(target.to_set().contains(v) == rest.push(replacement).to_set().contains(v));
    if rest.contains(v) {
        let k = rest.index_of(v);
        assert(rest.push(replacement)[k] == v);
    }
    assert(rest.push(replacement)[rest.len() as int] == replacement);
    if rest.push(replacement).contains(v) && v != replacement {
        let k = rest.push(replacement).index_of(v);
        assert(rest[k] == v);
    }
}

/// A command's outcome lets the work go on if and only if it was not refused.
pub proof fn law_refusals_stop_the_work(result: ResultView, what: Seq<char>)
    ensures
        accepted(result, what) is Err <==> result is Rejected,
{
}

/// A plan that was made is found under its placement; a finished move is reported with
/// its target at the committed position, which must be known.
pub proof fn law_plans_are_found_and_reported(
    p: Option<PlacementView>,
    id: u64,
    group: GroupId,
    target: Seq<NodeId>,
    config_log_id: Option<LogId>,
)
    ensures
        created_plan(p) == Ok::<u64, ErrorView>(id) <==> p is Some && p->0.move_plan is Some
            && p->0.move_plan->0.plan_id == id,
        finalize_report(group, id, target, config_log_id) is Ok <==> config_log_id is Some,
        finalize_report(group, id, target, config_log_id) matches Ok(c) ==> (
        c matches MetaCommandView::FinalizePlan { group: g, plan_id, observation: o } && g == group
            && plan_id == id && o.group == group && o.plan_id == id && o.voter_set == target && Some(
            o.config_log_id,
        ) == config_log_id),
{
}

/// A step succeeds with a value only where the decision has that value, and fails only
/// with the error that the decision names.
pub proof fn law_steps_give_their_decision<T>(r: Result<T, Error>, want: Result<T, ErrorView>)
    requires
        gives(r, want),
    ensures
        r is Ok <==> want is Ok,
        r is Ok ==> r->Ok_0 == want->Ok_0,
        r is Err ==> r->Err_0@ == want->Err_0,
{
}

} // verus!
