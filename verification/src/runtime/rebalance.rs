//! What the rebalance driver decides on every tick: which plans the meta leader
//! makes or aborts, how a group's leader carries one out, what it reports, and
//! which local groups may be given up.
use crate::api::ops::{directory_entry, find_node};
use crate::error::Error;
use crate::meta::bootstrap::{designated, is_lowest};
use crate::meta::node::MetaRead;
use crate::meta::rebalancer::{placement_view, resume_decision, resume_move, ResumeStep};
use crate::placement::{part_views, proposal, propose_ranked, Parts, PlanProposal, ProposalView};
use crate::search::{record_views, DefinitionHash, RecordView, SearchIndexRecord};
use crate::sets::{
    difference, holds, lemma_rising_set, lemma_sorted, lemma_without, rising_ids, rising_members, same_list, same_members,
    sort_ids, sorted, without, without_id,
};
use crate::transport::{Envelope, MsgType};
use crate::types::{
    entry_views, ClusterId, DataConfigObservation, GroupId, LogId, MetaCommand, MetaCommandView,
    MovePlan, MovePlanView, NodeDirectoryEntry, NodeEntryView, NodeId, NodeState, ObservationView,
    Placement, PlacementView, ProcessIdentityGate, RegistrationBinding,
};
use crate::wire::{
    LearnerReply, ObservationBody, ObservationBodyView, SearchIndexStatusReply, SubmitReply,
};
use std::collections::BTreeSet;
use vstd::prelude::*;

verus! {

// -- the tick ------------------------------------------------------------------

/// What a tick does.
#[derive(Debug, Clone, Copy, PartialEq, Eq, Structural)]
pub enum Tick {
    /// The process was superseded: the driver ends.
    Stop,
    /// Only plans that are already recorded are carried on.
    Recover,
    /// Plans are made and groups are given up as well.
    Full,
}

/// Decide what a tick does. Before bootstrap has completed no plan is made and no
/// group is given up.
pub fn tick(identity_open: bool, ready: bool) -> (t: Tick)
    ensures
        t == (if !identity_open {
            Tick::Stop
        } else if !ready {
            Tick::Recover
        } else {
            Tick::Full
        }),
{
    if !identity_open {
        Tick::Stop
    } else if !ready {
        Tick::Recover
    } else {
        Tick::Full
    }
}

/// Whether a directory shows that the process under a registration was
/// superseded: its node is listed with another incarnation or other endpoints.
pub open spec fn superseded(
    directory: Seq<NodeEntryView>,
    node: NodeId,
    incarnation: u64,
    control_addr: Seq<char>,
    bulk_addr: Seq<char>,
) -> bool {
    match directory_entry(directory, node) {
        Some(e) => e.incarnation != incarnation || e.control_addr != control_addr || e.bulk_addr
            != bulk_addr,
        None => false,
    }
}

/// Take in an authoritative directory: it is used unless it shows that this
/// process was superseded, which closes the identity gate for good.
pub fn merge_authoritative_directory(
    gate: &mut ProcessIdentityGate,
    node: NodeId,
    registration: &RegistrationBinding,
    directory: &Vec<NodeDirectoryEntry>,
) -> (used: bool)
    ensures
        used == !superseded(
            entry_views(directory@),
            node,
            registration@.directory_incarnation,
            registration@.control_addr,
            registration@.bulk_addr,
        ),
        used ==> *final(gate) == *old(gate),
        !used ==> !final(gate).spec_open(),
{
    if let Some(i) = find_node(directory, node) {
        let entry = &directory[i];
        assert(entry_views(directory@)[i as int] == entry@);
        if entry.incarnation != registration.directory_incarnation
            || !registration.matches_endpoints(&entry.control_addr, &entry.bulk_addr) {
            gate.fence();
            return false;
        }
    }
    true
}

/// Whether a local read of the directory can be used: confirmed, and not empty.
pub fn usable_directory(read: &Result<MetaRead<Vec<NodeDirectoryEntry>>, Error>) -> (yes: bool)
    ensures
        yes == (match *read {
            Ok(MetaRead::Value(d)) => d@.len() > 0,
            _ => false,
        }),
{
    match read {
        Ok(MetaRead::Value(d)) => d.len() > 0,
        _ => false,
    }
}

// -- planning --------------------------------------------------------------------

/// The state that a directory gives a node.
pub open spec fn state_of(directory: Seq<NodeEntryView>, node: NodeId) -> Option<NodeState> {
    match directory_entry(directory, node) {
        Some(e) => Some(e.state),
        None => None,
    }
}

/// Look up the state that a directory gives a node.
pub fn node_state(directory: &Vec<NodeDirectoryEntry>, node: NodeId) -> (s: Option<NodeState>)
    ensures
        s == state_of(entry_views(directory@), node),
{
    match find_node(directory, node) {
        Some(i) => {
            assert(entry_views(directory@)[i as int] == directory@[i as int]@);
            Some(directory[i].state)
        },
        None => None,
    }
}

fn is_active(directory: &Vec<NodeDirectoryEntry>, node: NodeId) -> (yes: bool)
    ensures
        yes == (state_of(entry_views(directory@), node) == Some(NodeState::Active)),
{
    match node_state(directory, node) {
        Some(NodeState::Active) => true,
        _ => false,
    }
}

/// The first voter other than this node that is active, or that is not.
pub open spec fn first_other(
    voters: Seq<NodeId>,
    directory: Seq<NodeEntryView>,
    node: NodeId,
    active: bool,
) -> Option<NodeId>
    decreases voters.len(),
{
    if voters.len() == 0 {
        None
    } else if voters[0] != node && (state_of(directory, voters[0]) == Some(NodeState::Active))
        == active {
        Some(voters[0])
    } else {
        first_other(voters.skip(1), directory, node, active)
    }
}

fn find_other(
    voters: &Vec<NodeId>,
    directory: &Vec<NodeDirectoryEntry>,
    node: NodeId,
    active: bool,
) -> (r: Option<NodeId>)
    ensures
        r == first_other(voters@, entry_views(directory@), node, active),
{
    let ghost views = entry_views(directory@);
    let mut i: usize = 0;
    assert(voters@.skip(0) =~= voters@);
    while i < voters.len()
        invariant
            i <= voters@.len(),
            views == entry_views(directory@),
            first_other(voters@, views, node, active) == first_other(
                voters@.skip(i as int),
                views,
                node,
                active,
            ),
        decreases voters@.len() - i,
    {
        proof {
            assert(voters@.skip(i as int)[0] == voters@[i as int]);
            assert(voters@.skip(i as int).skip(1) =~= voters@.skip(i + 1));
        }
        let v: NodeId = voters[i];
        if v != node && is_active(directory, v) == active {
            return Some(v);
        }
        i += 1;
    }
    None
}

/// Whom a meta leader that is not active hands its leadership to: a leader cannot
/// remove itself.
pub open spec fn handoff_target(
    node: NodeId,
    directory: Seq<NodeEntryView>,
    meta: Option<PlacementView>,
) -> Option<NodeId> {
    match meta {
        Some(p) => if state_of(directory, node) != Some(NodeState::Active) && p.voters.contains(
            node,
        ) {
            first_other(p.voters, directory, node, true)
        } else {
            None
        },
        None => None,
    }
}

/// Decide whether the meta leader hands its leadership over, and to whom.
pub fn handoff(node: NodeId, directory: &Vec<NodeDirectoryEntry>, meta: Option<&Placement>) -> (r:
    Option<NodeId>)
    ensures
        r == handoff_target(node, entry_views(directory@), placement_view(meta)),
{
    match meta {
        Some(p) => if !is_active(directory, node) && holds(&p.voters, node) {
            find_other(&p.voters, directory, node, true)
        } else {
            None
        },
        None => None,
    }
}

/// The plan of a placement that can never complete: it is not aborting, and the
/// learner that it adds is down.
pub open spec fn doomed_plan(directory: Seq<NodeEntryView>, p: PlacementView) -> Option<u64> {
    match p.move_plan {
        Some(plan) => {
            let added = rising_members(plan.target_voters.to_set().difference(p.voters.to_set()));
            if !plan.aborting && added.len() > 0 && state_of(directory, added[0]) == Some(
                NodeState::Down,
            ) {
                Some(plan.plan_id)
            } else {
                None
            }
        },
        None => None,
    }
}

/// The plan that must be aborted because its learner is down.
pub fn dead_target(directory: &Vec<NodeDirectoryEntry>, placement: &Placement) -> (r: Option<u64>)
    ensures
        r == doomed_plan(entry_views(directory@), placement@),
{
    match &placement.move_plan {
        None => None,
        Some(plan) => {
            if plan.aborting {
                return None;
            }
            let target = rising_ids(&plan.target_voters);
            let added = difference(&target, &placement.voters);
            proof {
                lemma_rising_set(added@);
            }
            if added.len() == 0 {
                return None;
            }
            match node_state(directory, added[0]) {
                Some(NodeState::Down) => Some(plan.plan_id),
                _ => None,
            }
        },
    }
}

/// The contents of placements, as far as they are known.
pub open spec fn known_views(placements: Seq<Option<Placement>>) -> Seq<Option<PlacementView>> {
    placements.map_values(
        |p: Option<Placement>|
            match p {
                Some(p) => Some(p@),
                None => None,
            },
    )
}

/// The placements before the first that is not known, with their partitions.
pub open spec fn known_prefix(placements: Seq<Option<PlacementView>>) -> Parts
    decreases placements.len(),
{
    if placements.len() == 0 {
        Seq::empty()
    } else {
        let head = known_prefix(placements.drop_last());
        match placements.last() {
            Some(p) => if head.len() == placements.len() - 1 {
                head.push(((placements.len() - 1) as u16, p))
            } else {
                head
            },
            None => head,
        }
    }
}

/// The commands that abort the doomed plans of some partitions.
pub open spec fn aborts(directory: Seq<NodeEntryView>, parts: Parts) -> Seq<MetaCommandView>
    decreases parts.len(),
{
    if parts.len() == 0 {
        Seq::empty()
    } else {
        let head = aborts(directory, parts.drop_last());
        let (partition, p) = parts.last();
        match doomed_plan(directory, p) {
            Some(plan_id) => head.push(
                MetaCommandView::MarkAborting { group: GroupId::Data(partition), plan_id },
            ),
            None => head,
        }
    }
}

/// Whether any partition is being moved.
pub open spec fn moving(parts: Parts) -> bool {
    exists|i: int| 0 <= i < parts.len() && (#[trigger] parts[i]).1.move_plan is Some
}

/// What the meta leader does about the data groups.
#[derive(Debug, Clone, PartialEq, Eq)]
pub struct Planning {
    /// The plans to abort.
    pub aborts: Vec<MetaCommand>,
    /// The plan to make.
    pub plan: Option<PlanProposal>,
    /// Whether every placement was known.
    pub complete: bool,
}

/// The content of a planning.
#[verifier::ext_equal]
pub struct PlanningView {
    pub aborts: Seq<MetaCommandView>,
    pub plan: Option<ProposalView>,
    pub complete: bool,
}

impl View for Planning {
    type V = PlanningView;

    open spec fn view(&self) -> PlanningView {
        PlanningView {
            aborts: self.aborts@.map_values(|c: MetaCommand| c@),
            plan: match self.plan {
                Some(p) => Some(p@),
                None => None,
            },
            complete: self.complete,
        }
    }
}

/// What is done about the data groups, given their placements: doomed plans are
/// aborted, and one plan is made if every placement is known and none is being
/// moved.
pub open spec fn planning(
    directory: Seq<NodeEntryView>,
    placements: Seq<Option<PlacementView>>,
    r: nat,
) -> PlanningView {
    let parts = known_prefix(placements);
    let complete = parts.len() == placements.len();
    PlanningView {
        aborts: aborts(directory, parts),
        plan: if complete && !moving(parts) {
            proposal(directory, parts, r)
        } else {
            None
        },
        complete,
    }
}

pub proof fn lemma_prefix_stops(placements: Seq<Option<PlacementView>>, n: int)
    requires
        0 <= n < placements.len(),
        placements[n] is None,
    ensures
        known_prefix(placements) == known_prefix(placements.take(n)),
        known_prefix(placements).len() <= n,
    decreases placements.len(),
{
    let head = placements.drop_last();
    if n == placements.len() - 1 {
        assert(placements.take(n) =~= head);
        lemma_prefix_len(head);
    } else {
        lemma_prefix_stops(head, n);
        assert(head.take(n) =~= placements.take(n));
    }
}

pub proof fn lemma_prefix_len(placements: Seq<Option<PlacementView>>)
    ensures
        known_prefix(placements).len() <= placements.len(),
    decreases placements.len(),
{
    if placements.len() > 0 {
        lemma_prefix_len(placements.drop_last());
    }
}

/// Plan for the data groups; partitions are numbered as they are listed.
pub fn plan_data_moves(
    directory: &Vec<NodeDirectoryEntry>,
    placements: &Vec<Option<Placement>>,
    r: usize,
) -> (out: Planning)
    requires
        placements@.len() <= u16::MAX,
    ensures
        out@ == planning(entry_views(directory@), known_views(placements@), r as nat),
{
    let ghost views = entry_views(directory@);
    let ghost all = known_views(placements@);
    let mut commands: Vec<MetaCommand> = Vec::new();
    let mut parts: Vec<(u16, Placement)> = Vec::new();
    let mut moving_any: bool = false;
    let mut i: usize = 0;
    proof {
        assert(all.take(0) =~= Seq::<Option<PlacementView>>::empty());
        assert(part_views(parts@) =~= known_prefix(all.take(0)));
        assert(commands@.map_values(|c: MetaCommand| c@) =~= Seq::<MetaCommandView>::empty());
    }
    while i < placements.len()
        invariant
            i <= placements@.len() <= u16::MAX,
            views == entry_views(directory@),
            all == known_views(placements@),
            parts@.len() == i,
            part_views(parts@) == known_prefix(all.take(i as int)),
            commands@.map_values(|c: MetaCommand| c@) == aborts(views, part_views(parts@)),
            moving_any == moving(part_views(parts@)),
        decreases placements@.len() - i,
    {
        proof {
            assert(all.take(i + 1).drop_last() =~= all.take(i as int));
            assert(all.take(i + 1).last() == all[i as int]);
        }
        match &placements[i] {
            None => {
                proof {
                    lemma_prefix_stops(all, i as int);
                }
                return Planning { aborts: commands, plan: None, complete: false };
            },
            Some(p) => {
                let ghost before = part_views(parts@);
                let ghost listed = commands@.map_values(|c: MetaCommand| c@);
                let partition: u16 = i as u16;
                if let Some(plan_id) = dead_target(directory, p) {
                    commands.push(
                        MetaCommand::MarkAborting { group: GroupId::Data(partition), plan_id },
                    );
                    proof {
                        assert(commands@.map_values(|c: MetaCommand| c@) =~= listed.push(
                            MetaCommandView::MarkAborting {
                                group: GroupId::Data(partition),
                                plan_id,
                            },
                        ));
                    }
                }
                let in_flight: bool = match &p.move_plan {
                    Some(_) => true,
                    None => false,
                };
                parts.push((partition, p.duplicate()));
                proof {
                    let now = part_views(parts@);
                    assert(now =~= before.push((partition, p@)));
                    assert(now.drop_last() =~= before);
                    assert(forall|k: int| 0 <= k < before.len() ==> now[k] == before[k]);
                    if in_flight {
                        assert(now[i as int].1.move_plan is Some);
                    }
                    if moving(before) {
                        let k = choose|k: int|
                            0 <= k < before.len() && (#[trigger] before[k]).1.move_plan is Some;
                        assert(now[k].1.move_plan is Some);
                    }
                    if moving(now) {
                        let k = choose|k: int|
                            0 <= k < now.len() && (#[trigger] now[k]).1.move_plan is Some;
                        if k < i {
                            assert(before[k].1.move_plan is Some);
                        }
                    }
                }
                moving_any = moving_any || in_flight;
            },
        }
        i += 1;
    }
    assert(all.take(i as int) =~= all);
    let plan: Option<PlanProposal> = if moving_any {
        None
    } else {
        propose_ranked(directory, &parts, r)
    };
    Planning { aborts: commands, plan, complete: true }
}

/// The first active node of a directory that is not among some voters.
pub open spec fn spare(directory: Seq<NodeEntryView>, voters: Seq<NodeId>) -> Option<NodeId>
    decreases directory.len(),
{
    if directory.len() == 0 {
        None
    } else if directory[0].state is Active && !voters.contains(directory[0].node_id) {
        Some(directory[0].node_id)
    } else {
        spare(directory.skip(1), voters)
    }
}

fn find_spare(directory: &Vec<NodeDirectoryEntry>, voters: &Vec<NodeId>) -> (r: Option<NodeId>)
    ensures
        r == spare(entry_views(directory@), voters@),
{
    let ghost views = entry_views(directory@);
    let mut i: usize = 0;
    assert(views.skip(0) =~= views);
    while i < directory.len()
        invariant
            i <= directory@.len(),
            views == entry_views(directory@),
            spare(views, voters@) == spare(views.skip(i as int), voters@),
        decreases directory@.len() - i,
    {
        let e = &directory[i];
        proof {
            assert(views.skip(i as int)[0] == e@);
            assert(views.skip(i as int).skip(1) =~= views.skip(i + 1));
        }
        if e.state == NodeState::Active && !holds(voters, e.node_id) {
            return Some(e.node_id);
        }
        i += 1;
    }
    None
}

/// What the meta leader does about its own group.
#[derive(Debug, Clone, PartialEq, Eq)]
pub enum MetaStep {
    Nothing,
    /// Replace a voter.
    Plan(Vec<NodeId>),
    /// Abort a plan that cannot complete.
    Abort(u64),
}

#[verifier::ext_equal]
pub enum MetaStepView {
    Nothing,
    Plan(Seq<NodeId>),
    Abort(u64),
}

impl View for MetaStep {
    type V = MetaStepView;

    open spec fn view(&self) -> MetaStepView {
        match self {
            MetaStep::Nothing => MetaStepView::Nothing,
            MetaStep::Plan(target) => MetaStepView::Plan(target@),
            MetaStep::Abort(plan_id) => MetaStepView::Abort(*plan_id),
        }
    }
}

/// What is done about the meta group: a voter that is not active, other than the
/// leader itself, is replaced by an active node, and a plan whose learner is down
/// is aborted.
pub open spec fn meta_step(
    node: NodeId,
    directory: Seq<NodeEntryView>,
    placement: Option<PlacementView>,
) -> MetaStepView {
    match placement {
        None => MetaStepView::Nothing,
        Some(p) => match p.move_plan {
            None => match (first_other(p.voters, directory, node, false), spare(directory, p.voters)) {
                (Some(drained), Some(replacement)) => MetaStepView::Plan(
                    sorted(without(p.voters, drained).push(replacement)),
                ),
                _ => MetaStepView::Nothing,
            },
            Some(_) => match doomed_plan(directory, p) {
                Some(plan_id) => MetaStepView::Abort(plan_id),
                None => MetaStepView::Nothing,
            },
        },
    }
}

/// Plan for the meta group.
pub fn drive_meta_voters(
    node: NodeId,
    directory: &Vec<NodeDirectoryEntry>,
    placement: Option<&Placement>,
) -> (step: MetaStep)
    ensures
        step@ == meta_step(node, entry_views(directory@), placement_view(placement)),
{
    let p = match placement {
        None => {
            return MetaStep::Nothing;
        },
        Some(p) => p,
    };
    match &p.move_plan {
        None => {
            let drained = find_other(&p.voters, directory, node, false);
            let replacement = find_spare(directory, &p.voters);
            match (drained, replacement) {
                (Some(d), Some(n)) => {
                    let mut target = without_id(&p.voters, d);
                    target.push(n);
                    MetaStep::Plan(sort_ids(&target))
                },
                _ => MetaStep::Nothing,
            }
        },
        Some(_) => match dead_target(directory, p) {
            Some(plan_id) => MetaStep::Abort(plan_id),
            None => MetaStep::Nothing,
        },
    }
}

// -- the meta leader -------------------------------------------------------------

/// What the meta role of a tick comes to.
#[derive(Debug, Clone, PartialEq, Eq)]
pub enum MetaRole {
    /// This node does not lead the meta group, or genesis is not over.
    Idle,
    /// Ask another voter to take the leadership over, and plan nothing.
    HandOff(NodeId),
    /// Propose what was planned for the data groups and for the meta group.
    Plan { data: Planning, meta: MetaStep },
}

#[verifier::ext_equal]
pub enum MetaRoleView {
    Idle,
    HandOff(NodeId),
    Plan { data: PlanningView, meta: MetaStepView },
}

impl View for MetaRole {
    type V = MetaRoleView;

    open spec fn view(&self) -> MetaRoleView {
        match self {
            MetaRole::Idle => MetaRoleView::Idle,
            MetaRole::HandOff(target) => MetaRoleView::HandOff(*target),
            MetaRole::Plan { data, meta } => MetaRoleView::Plan { data: data@, meta: meta@ },
        }
    }
}

/// What the meta role of a tick comes to: only the leader acts, and only after
/// genesis; one that is not active hands over first; and nothing is planned for
/// the meta group while a data group's placement is unknown.
pub open spec fn meta_role(
    node: NodeId,
    leader: Option<NodeId>,
    genesis_over: bool,
    directory: Seq<NodeEntryView>,
    placements: Seq<Option<PlacementView>>,
    meta: Option<PlacementView>,
    r: nat,
) -> MetaRoleView {
    if leader != Some(node) || !genesis_over {
        MetaRoleView::Idle
    } else {
        match handoff_target(node, directory, meta) {
            Some(target) => MetaRoleView::HandOff(target),
            None => MetaRoleView::Plan {
                data: planning(directory, placements, r),
                meta: if planning(directory, placements, r).complete {
                    meta_step(node, directory, meta)
                } else {
                    MetaStepView::Nothing
                },
            },
        }
    }
}

/// Decide what the meta leader writes in a tick: the plans it makes for data
/// groups and for its own group, and those it aborts.
pub fn drive_meta_role(
    node: NodeId,
    leader: Option<NodeId>,
    genesis_over: bool,
    directory: &Vec<NodeDirectoryEntry>,
    placements: &Vec<Option<Placement>>,
    meta: Option<&Placement>,
    r: usize,
) -> (role: MetaRole)
    requires
        placements@.len() <= u16::MAX,
    ensures
        role@ == meta_role(
            node,
            leader,
            genesis_over,
            entry_views(directory@),
            known_views(placements@),
            placement_view(meta),
            r as nat,
        ),
{
    let leads: bool = match leader {
        Some(l) => l == node,
        None => false,
    };
    if !leads || !genesis_over {
        return MetaRole::Idle;
    }
    if let Some(target) = handoff(node, directory, meta) {
        return MetaRole::HandOff(target);
    }
    let data = plan_data_moves(directory, placements, r);
    let step = if data.complete {
        drive_meta_voters(node, directory, meta)
    } else {
        MetaStep::Nothing
    };
    MetaRole::Plan { data, meta: step }
}

// -- genesis -------------------------------------------------------------------

/// What has to be known of a genesis group before a plan may be made.
#[derive(Debug, Clone, Copy, PartialEq, Eq, Structural)]
pub enum GenesisCheck {
    /// Its placement is not known, or it has no voter: not yet.
    NotReady,
    /// It has moved on from genesis.
    Past,
    /// Whether it is initialized here.
    Local,
    /// Whether it is initialized at its designated voter.
    Remote(NodeId),
}

/// Decide what has to be known of a group that began with some voters. It is asked
/// of the designated one, the lowest.
pub fn genesis_data_ready(node: NodeId, initial: &Vec<NodeId>, placement: Option<&Placement>) -> (c:
    GenesisCheck)
    ensures
        match placement_view(placement) {
            None => c is NotReady,
            Some(p) => if p.voters != initial@ || p.move_plan is Some {
                c is Past
            } else if initial@.len() == 0 {
                c is NotReady
            } else {
                match c {
                    GenesisCheck::Local => is_lowest(initial@, node),
                    GenesisCheck::Remote(d) => is_lowest(initial@, d) && d != node,
                    _ => false,
                }
            },
        },
{
    let p = match placement {
        None => {
            return GenesisCheck::NotReady;
        },
        Some(p) => p,
    };
    if !same_list(&p.voters, initial) {
        return GenesisCheck::Past;
    }
    if let Some(_) = &p.move_plan {
        return GenesisCheck::Past;
    }
    match designated(initial) {
        None => GenesisCheck::NotReady,
        Some(d) => if d == node {
            GenesisCheck::Local
        } else {
            GenesisCheck::Remote(d)
        },
    }
}

/// Whether a reply says that a genesis group is initialized; `ready` is its body,
/// if it can be read.
pub fn genesis_confirmed(cluster_id: ClusterId, reply: &Envelope, ready: Option<bool>) -> (yes: bool)
    ensures
        yes == (reply.cluster_id == cluster_id && reply.msg_type is BootstrapStatus && ready
            == Some(true)),
{
    reply.cluster_id == cluster_id && reply.msg_type == MsgType::BootstrapStatus && match ready {
        Some(yes) => yes,
        None => false,
    }
}

// -- carrying a plan out -------------------------------------------------------

/// What a replica does for its group's plan: only the group's leader acts, and on
/// a configuration that matches no phase of the plan it does nothing.
pub open spec fn leader_step(
    node: NodeId,
    leader: Option<NodeId>,
    placement: Option<PlacementView>,
    committed: Set<NodeId>,
) -> ResumeStep {
    if leader != Some(node) {
        ResumeStep::Nothing
    } else {
        match resume_decision(placement, committed) {
            Ok(step) => step,
            Err(_) => ResumeStep::Nothing,
        }
    }
}

/// Decide what a replica does for its group's plan.
pub fn drive_data_role(
    node: NodeId,
    leader: Option<NodeId>,
    placement: Option<&Placement>,
    committed: &BTreeSet<NodeId>,
) -> (step: ResumeStep)
    ensures
        step == leader_step(node, leader, placement_view(placement), committed@),
{
    let leads: bool = match leader {
        Some(l) => l == node,
        None => false,
    };
    if !leads {
        return ResumeStep::Nothing;
    }
    match resume_move(placement, committed) {
        Ok(step) => step,
        Err(_) => ResumeStep::Nothing,
    }
}

/// The stages of a move, in order.
#[derive(Debug, Clone, Copy, PartialEq, Eq, Structural)]
pub enum MoveStage {
    /// The target starts its learner runtime.
    Admit,
    /// The learner is added and catches up.
    AddLearner,
    /// The learner has built every active search index.
    CheckIndexes,
    /// The voters are changed.
    ChangeVoters,
    /// The result is reported.
    Report,
}

/// The stage after one that succeeded. The meta group has no search indexes.
pub open spec fn stage_after(group: GroupId, stage: MoveStage) -> Option<MoveStage> {
    match stage {
        MoveStage::Admit => Some(MoveStage::AddLearner),
        MoveStage::AddLearner => match group {
            GroupId::Meta => Some(MoveStage::ChangeVoters),
            GroupId::Data(_) => Some(MoveStage::CheckIndexes),
        },
        MoveStage::CheckIndexes => Some(MoveStage::ChangeVoters),
        MoveStage::ChangeVoters => Some(MoveStage::Report),
        MoveStage::Report => None,
    }
}

/// The next stage of a move. One that failed ends the attempt; the next tick
/// tries again.
pub fn next_stage(group: GroupId, stage: MoveStage, succeeded: bool) -> (r: Option<MoveStage>)
    ensures
        r == (if succeeded {
            stage_after(group, stage)
        } else {
            None
        }),
{
    if !succeeded {
        return None;
    }
    match stage {
        MoveStage::Admit => Some(MoveStage::AddLearner),
        MoveStage::AddLearner => match group {
            GroupId::Meta => Some(MoveStage::ChangeVoters),
            GroupId::Data(_) => Some(MoveStage::CheckIndexes),
        },
        MoveStage::CheckIndexes => Some(MoveStage::ChangeVoters),
        MoveStage::ChangeVoters => Some(MoveStage::Report),
        MoveStage::Report => None,
    }
}

/// A report that a group's configuration is settled.
pub open spec fn observed(
    group: GroupId,
    plan_id: u64,
    voter_set: Seq<NodeId>,
    config_log_id: LogId,
) -> ObservationView {
    ObservationView { group, plan_id, voter_set, config_log_id }
}

/// What a confirmed configuration lets a leader report of a plan: its target, if
/// that is what was committed.
pub open spec fn finalize_body(
    group: GroupId,
    plan_id: u64,
    target: Seq<NodeId>,
    confirmed: Option<(Option<LogId>, Seq<NodeId>)>,
) -> Option<ObservationBodyView> {
    match confirmed {
        Some((Some(log_id), committed)) => if committed.to_set() == target.to_set() {
            Some(
                ObservationBodyView::Finalize {
                    group,
                    plan_id,
                    observation: observed(group, plan_id, target, log_id),
                },
            )
        } else {
            None
        },
        _ => None,
    }
}

/// What a confirmed configuration lets a leader report of an aborting plan:
/// exactly the voters, or exactly the target; a joint configuration is left for
/// later.
pub open spec fn abort_body(
    group: GroupId,
    voters: Seq<NodeId>,
    plan: MovePlanView,
    confirmed: Option<(Option<LogId>, Seq<NodeId>)>,
) -> Option<ObservationBodyView> {
    match confirmed {
        Some((Some(log_id), committed)) => {
            if committed.to_set() == voters.to_set() {
                Some(
                    ObservationBodyView::Abort {
                        group,
                        plan_id: plan.plan_id,
                        observation: observed(group, plan.plan_id, voters, log_id),
                    },
                )
            } else if committed.to_set() == plan.target_voters.to_set() {
                Some(
                    ObservationBodyView::Abort {
                        group,
                        plan_id: plan.plan_id,
                        observation: observed(group, plan.plan_id, plan.target_voters, log_id),
                    },
                )
            } else {
                None
            }
        },
        _ => None,
    }
}

/// A confirmed configuration by its content.
pub open spec fn confirmed_view(confirmed: Option<&(Option<LogId>, Vec<NodeId>)>) -> Option<
    (Option<LogId>, Seq<NodeId>),
> {
    match confirmed {
        Some(c) => Some((c.0, c.1@)),
        None => None,
    }
}

/// Whether a report is the one that a decision says.
pub open spec fn reports(r: Option<ObservationBody>, want: Option<ObservationBodyView>) -> bool {
    match (r, want) {
        (Some(a), Some(b)) => a@ == b,
        (None, None) => true,
        _ => false,
    }
}

/// Report a completed move, given the configuration that a quorum confirmed.
pub fn report_finalize(
    group: GroupId,
    plan_id: u64,
    target: &Vec<NodeId>,
    confirmed: Option<&(Option<LogId>, Vec<NodeId>)>,
) -> (r: Option<ObservationBody>)
    ensures
        reports(r, finalize_body(group, plan_id, target@, confirmed_view(confirmed))),
{
    match confirmed {
        None => None,
        Some(c) => {
            if !same_members(&c.1, target) {
                return None;
            }
            match c.0 {
                None => None,
                Some(config_log_id) => Some(
                    ObservationBody::Finalize {
                        group,
                        plan_id,
                        observation: DataConfigObservation {
                            group,
                            plan_id,
                            voter_set: target.clone(),
                            config_log_id,
                        },
                    },
                ),
            }
        },
    }
}

/// Report how an aborting plan is resolved, given the configuration that a quorum
/// confirmed.
pub fn report_abort(
    group: GroupId,
    placement: &Placement,
    plan: &MovePlan,
    confirmed: Option<&(Option<LogId>, Vec<NodeId>)>,
) -> (r: Option<ObservationBody>)
    ensures
        reports(r, abort_body(group, placement@.voters, plan@, confirmed_view(confirmed))),
{
    match confirmed {
        None => None,
        Some(c) => {
            let voter_set: Vec<NodeId>;
            if same_members(&c.1, &placement.voters) {
                voter_set = placement.voters.clone();
            } else if same_members(&c.1, &plan.target_voters) {
                voter_set = plan.target_voters.clone();
            } else {
                return None;
            }
            match c.0 {
                None => None,
                Some(config_log_id) => Some(
                    ObservationBody::Abort {
                        group,
                        plan_id: plan.plan_id,
                        observation: DataConfigObservation {
                            group,
                            plan_id: plan.plan_id,
                            voter_set,
                            config_log_id,
                        },
                    },
                ),
            }
        },
    }
}

/// Whether a learner confirmed its admission.
pub fn learner_admitted(reply: Option<&LearnerReply>) -> (yes: bool)
    ensures
        yes == (match reply {
            Some(r) => *r is Admitted,
            None => false,
        }),
{
    match reply {
        Some(LearnerReply::Admitted) => true,
        _ => false,
    }
}

// -- the index fence -----------------------------------------------------------

/// The generations that a voter must serve: the active one of each index.
pub open spec fn active_generations(records: Seq<RecordView>) -> Seq<
    (Seq<char>, u64, DefinitionHash),
>
    decreases records.len(),
{
    if records.len() == 0 {
        Seq::empty()
    } else {
        let head = active_generations(records.drop_last());
        match records.last().active {
            Some(g) => head.push((records.last().name, g.id, g.definition_hash)),
            None => head,
        }
    }
}

/// Named generations by their content.
pub open spec fn generation_names(list: Seq<(String, u64, DefinitionHash)>) -> Seq<
    (Seq<char>, u64, DefinitionHash),
> {
    list.map_values(|g: (String, u64, DefinitionHash)| (g.0@, g.1, g.2))
}

/// List the generations that a voter must serve.
pub fn required_generations(records: &Vec<SearchIndexRecord>) -> (out: Vec<
    (String, u64, DefinitionHash),
>)
    ensures
        generation_names(out@) == active_generations(record_views(records@)),
{
    let ghost views = record_views(records@);
    let mut out: Vec<(String, u64, DefinitionHash)> = Vec::new();
    let mut i: usize = 0;
    proof {
        assert(views.take(0) =~= Seq::<RecordView>::empty());
        assert(generation_names(out@) =~= active_generations(views.take(0)));
    }
    while i < records.len()
        invariant
            i <= records@.len(),
            views == record_views(records@),
            generation_names(out@) == active_generations(views.take(i as int)),
        decreases records@.len() - i,
    {
        let record = &records[i];
        proof {
            assert(views[i as int] == record@);
            assert(views.take(i + 1).drop_last() =~= views.take(i as int));
            assert(views.take(i + 1).last() == views[i as int]);
        }
        if let Some(active) = &record.active {
            let ghost before = generation_names(out@);
            out.push((record.name.clone(), active.id, active.definition_hash));
            proof {
                assert(generation_names(out@) =~= before.push(
                    (record.name@, active.id, active.definition_hash),
                ));
            }
        }
        i += 1;
    }
    assert(views.take(i as int) =~= views);
    out
}

/// What the index fence asks before a learner is promoted.
#[derive(Debug, Clone, PartialEq, Eq)]
pub enum IndexFence {
    /// Nothing has to be built.
    Open,
    /// What has to be built is not known: the move waits.
    Held,
    /// Whether the learner has built these.
    Ask(Vec<(String, u64, DefinitionHash)>),
}

/// Decide what the index fence asks. `catalog` is absent where no search is
/// configured, and holds nothing where it could not be read.
pub fn learner_indexes_ready(catalog: Option<Option<&Vec<SearchIndexRecord>>>) -> (f: IndexFence)
    ensures
        match catalog {
            None => f is Open,
            Some(None) => f is Held,
            Some(Some(records)) => {
                let needed = active_generations(record_views(records@));
                if needed.len() == 0 {
                    f is Open
                } else {
                    f matches IndexFence::Ask(list) && generation_names(list@) == needed
                }
            },
        },
{
    match catalog {
        None => IndexFence::Open,
        Some(None) => IndexFence::Held,
        Some(Some(records)) => {
            let needed = required_generations(records);
            assert(generation_names(needed@).len() == needed@.len());
            if needed.len() == 0 {
                IndexFence::Open
            } else {
                IndexFence::Ask(needed)
            }
        },
    }
}

/// Whether a learner answered that it has built what it must serve.
pub fn indexes_confirmed(reply: Option<&SearchIndexStatusReply>) -> (yes: bool)
    ensures
        yes == (match reply {
            Some(SearchIndexStatusReply::Status { ready, .. }) => *ready,
            _ => false,
        }),
{
    match reply {
        Some(SearchIndexStatusReply::Status { ready, .. }) => *ready,
        _ => false,
    }
}

// -- giving groups up ----------------------------------------------------------

/// Whether a node may give a group up: the committed placement is known, holds no
/// move, and does not have the node as a voter.
pub open spec fn reclaimable(placement: Option<PlacementView>, node: NodeId) -> bool {
    placement matches Some(p) && p.move_plan is None && !p.voters.contains(node)
}

/// Decide whether this node may give a group up.
pub fn should_reclaim(placement: Option<&Placement>, node: NodeId) -> (yes: bool)
    ensures
        yes == reclaimable(placement_view(placement), node),
{
    match placement {
        None => false,
        Some(p) => match &p.move_plan {
            Some(_) => false,
            None => !holds(&p.voters, node),
        },
    }
}

// -- asking the meta group -----------------------------------------------------

/// What a local read says of a placement: a confirmed answer is final, and
/// anything else means that peers are asked.
pub fn local_answer(read: Option<Result<MetaRead<Option<Placement>>, Error>>) -> (r: Option<
    Option<Placement>,
>)
    ensures
        match read {
            Some(Ok(MetaRead::Value(p))) => r == Some(p),
            _ => r is None,
        },
{
    match read {
        Some(Ok(MetaRead::Value(p))) => Some(p),
        _ => None,
    }
}

/// Whether a peer took a report: only an outcome ends the search for one.
pub fn observation_taken(reply: Option<&SubmitReply>) -> (yes: bool)
    ensures
        yes == (match reply {
            Some(r) => *r is Outcome,
            None => false,
        }),
{
    match reply {
        Some(SubmitReply::Outcome(_)) => true,
        _ => false,
    }
}

// -- laws ------------------------------------------------------------------------

/// A plan is made only from complete knowledge, and only while no partition is
/// being moved.
pub proof fn law_one_move_at_a_time(
    directory: Seq<NodeEntryView>,
    placements: Seq<Option<PlacementView>>,
    r: nat,
)
    requires
        planning(directory, placements, r).plan is Some,
    ensures
        forall|i: int|
            0 <= i < placements.len() ==> ((#[trigger] placements[i]) is Some
                && placements[i]->0.move_plan is None),
{
    let parts = known_prefix(placements);
    assert forall|i: int| 0 <= i < placements.len() implies ((#[trigger] placements[i]) is Some
        && placements[i]->0.move_plan is None) by {
        lemma_complete(placements, i);
        assert(parts[i].1.move_plan is None);
    }
}

pub proof fn lemma_complete(placements: Seq<Option<PlacementView>>, i: int)
    requires
        known_prefix(placements).len() == placements.len(),
        0 <= i < placements.len(),
    ensures
        placements[i] is Some,
        known_prefix(placements)[i].1 == placements[i]->0,
    decreases placements.len(),
{
    let head = placements.drop_last();
    lemma_prefix_len(head);
    if i < placements.len() - 1 {
        lemma_complete(head, i);
        assert(head[i] == placements[i]);
    }
}

/// Voters are changed only after every stage before it succeeded: of a data
/// group, only after the learner was admitted, was added, and has built the
/// search indexes; of the meta group, only after it was admitted and added.
pub proof fn law_promotion_is_fenced(group: GroupId, stage: MoveStage)
    requires
        stage_after(group, stage) == Some(MoveStage::ChangeVoters),
    ensures
        stage is AddLearner || stage is CheckIndexes,
        group is Data ==> stage is CheckIndexes,
        forall|s: MoveStage| #[trigger] stage_after(group, s) == Some(MoveStage::CheckIndexes)
            ==> s is AddLearner,
        forall|s: MoveStage| #[trigger] stage_after(group, s) == Some(MoveStage::AddLearner)
            ==> s is Admit,
{
}

/// A leader's report of a plan names exactly the configuration that a quorum
/// confirmed, never a joint one.
pub proof fn law_reports_are_confirmed(
    group: GroupId,
    voters: Seq<NodeId>,
    plan: MovePlanView,
    config_log_id: LogId,
    committed: Seq<NodeId>,
)
    ensures
        ({
            let confirmed = Some((Some(config_log_id), committed));
            &&& finalize_body(group, plan.plan_id, plan.target_voters, confirmed) matches Some(body)
                ==> body->Finalize_observation.voter_set.to_set() == committed.to_set()
            &&& abort_body(group, voters, plan, confirmed) matches Some(body)
                ==> body->Abort_observation.voter_set.to_set() == committed.to_set()
        }),
{
}

/// No group is given up while a move is in flight or while the node is a voter of
/// it, and none on a guess.
pub proof fn law_reclaim_is_safe(placement: Option<PlacementView>, node: NodeId)
    ensures
        placement is None ==> !reclaimable(placement, node),
        placement matches Some(p) ==> (p.move_plan is Some || p.voters.contains(node)
            ==> !reclaimable(placement, node)),
{
}

/// The leader of the meta group never plans its own removal.
pub proof fn law_leader_stays_planned(
    node: NodeId,
    directory: Seq<NodeEntryView>,
    p: PlacementView,
    target: Seq<NodeId>,
)
    requires
        meta_step(node, directory, Some(p)) == MetaStepView::Plan(target),
        p.voters.contains(node),
    ensures
        target.contains(node),
{
    lemma_first_other(p.voters, directory, node, false);
    let drained = first_other(p.voters, directory, node, false)->0;
    let rest = without(p.voters, drained);
    let list = rest.push(spare(directory, p.voters)->0);
    lemma_without(p.voters, drained);
    lemma_sorted(list);
    assert(rest.contains(node));
    let k = rest.index_of(node);
    assert(list[k] == node);
    assert(list.to_set().contains(node));
    assert(target.to_set().contains(node));
}

proof fn lemma_first_other(
    voters: Seq<NodeId>,
    directory: Seq<NodeEntryView>,
    node: NodeId,
    active: bool,
)
    ensures
        first_other(voters, directory, node, active) matches Some(v) ==> v != node
            && voters.contains(v) && (state_of(directory, v) == Some(NodeState::Active)) == active,
    decreases voters.len(),
{
    if voters.len() > 0 {
        lemma_first_other(voters.skip(1), directory, node, active);
        if let Some(v) = first_other(voters.skip(1), directory, node, active) {
            let k = voters.skip(1).index_of(v);
            assert(voters[k + 1] == v);
        }
    }
}

/// The first voter other than a node that is, or is not, active: every voter before
/// it is the node itself or differs, and there is none only where all do.
pub proof fn law_first_other_voter(
    voters: Seq<NodeId>,
    directory: Seq<NodeEntryView>,
    node: NodeId,
    active: bool,
)
    ensures
        match first_other(voters, directory, node, active) {
            Some(v) => exists|i: int|
                {
                    &&& 0 <= i < voters.len()
                    &&& #[trigger] voters[i] == v
                    &&& v != node
                    &&& (state_of(directory, v) == Some(NodeState::Active)) == active
                    &&& forall|j: int|
                        0 <= j < i ==> (#[trigger] voters[j] == node || (state_of(
                            directory,
                            voters[j],
                        ) == Some(NodeState::Active)) != active)
                },
            None => forall|j: int|
                0 <= j < voters.len() ==> (#[trigger] voters[j] == node || (state_of(
                    directory,
                    voters[j],
                ) == Some(NodeState::Active)) != active),
        },
    decreases voters.len(),
{
    if voters.len() > 0 {
        let rest = voters.skip(1);
        let here = voters[0] != node && (state_of(directory, voters[0]) == Some(NodeState::Active))
            == active;
        if here {
            assert(voters[0] == first_other(voters, directory, node, active)->0);
        } else {
            law_first_other_voter(rest, directory, node, active);
            match first_other(rest, directory, node, active) {
                Some(v) => {
                    let i = choose|i: int|
                        {
                            &&& 0 <= i < rest.len()
                            &&& #[trigger] rest[i] == v
                            &&& v != node
                            &&& (state_of(directory, v) == Some(NodeState::Active)) == active
                            &&& forall|j: int|
                                0 <= j < i ==> (#[trigger] rest[j] == node || (state_of(
                                    directory,
                                    rest[j],
                                ) == Some(NodeState::Active)) != active)
                        };
                    assert(voters[i + 1] == v);
                    assert forall|j: int| 0 <= j < i + 1 implies (#[trigger] voters[j] == node || (
                    state_of(directory, voters[j]) == Some(NodeState::Active)) != active) by {
                        if j > 0 {
                            assert(rest[j - 1] == voters[j]);
                        }
                    }
                },
                None => {
                    assert forall|j: int| 0 <= j < voters.len() implies (#[trigger] voters[j] == node
                        || (state_of(directory, voters[j]) == Some(NodeState::Active)) != active) by {
                        if j > 0 {
                            assert(rest[j - 1] == voters[j]);
                        }
                    }
                },
            }
        }
    }
}

/// The spare node is the first active one of the directory outside the voters, and
/// there is none only where no active node is.
pub proof fn law_spare_is_active_and_outside(directory: Seq<NodeEntryView>, voters: Seq<NodeId>)
    ensures
        match spare(directory, voters) {
            Some(v) => !voters.contains(v) && exists|i: int|
                {
                    &&& 0 <= i < directory.len()
                    &&& (#[trigger] directory[i]).node_id == v
                    &&& directory[i].state == NodeState::Active
                    &&& forall|j: int|
                        0 <= j < i ==> !((#[trigger] directory[j]).state == NodeState::Active
                            && !voters.contains(directory[j].node_id))
                },
            None => forall|j: int|
                0 <= j < directory.len() ==> !((#[trigger] directory[j]).state == NodeState::Active
                    && !voters.contains(directory[j].node_id)),
        },
    decreases directory.len(),
{
    if directory.len() > 0 {
        let rest = directory.skip(1);
        if directory[0].state is Active && !voters.contains(directory[0].node_id) {
            assert(directory[0].node_id == spare(directory, voters)->0);
        } else {
            law_spare_is_active_and_outside(rest, voters);
            match spare(rest, voters) {
                Some(v) => {
                    let i = choose|i: int|
                        {
                            &&& 0 <= i < rest.len()
                            &&& (#[trigger] rest[i]).node_id == v
                            &&& rest[i].state == NodeState::Active
                            &&& forall|j: int|
                                0 <= j < i ==> !((#[trigger] rest[j]).state == NodeState::Active
                                    && !voters.contains(rest[j].node_id))
                        };
                    assert(directory[i + 1] == rest[i]);
                    assert forall|j: int| 0 <= j < i + 1 implies !((#[trigger] directory[j]).state
                        == NodeState::Active && !voters.contains(directory[j].node_id)) by {
                        if j > 0 {
                            assert(rest[j - 1] == directory[j]);
                        }
                    }
                },
                None => {
                    assert forall|j: int| 0 <= j < directory.len() implies !((
                    #[trigger] directory[j]).state == NodeState::Active && !voters.contains(
                        directory[j].node_id,
                    )) by {
                        if j > 0 {
                            assert(rest[j - 1] == directory[j]);
                        }
                    }
                },
            }
        }
    }
}

/// A plan that takes one node in is given up if and only if it is not aborting yet
/// and the directory holds that node down; one that takes none in is not given up.
pub proof fn law_plans_are_given_up(directory: Seq<NodeEntryView>, p: PlacementView, x: NodeId)
    ensures
        p.move_plan is None ==> doomed_plan(directory, p) is None,
        p.move_plan is Some && p.move_plan->0.target_voters.to_set().difference(p.voters.to_set())
            == set![x] ==> {
            &&& doomed_plan(directory, p) is Some <==> !p.move_plan->0.aborting && state_of(
                directory,
                x,
            ) == Some(NodeState::Down)
            &&& doomed_plan(directory, p) matches Some(id) ==> id == p.move_plan->0.plan_id
        },
        p.move_plan is Some && p.move_plan->0.target_voters.to_set().difference(p.voters.to_set())
            == Set::<NodeId>::empty() ==> doomed_plan(directory, p) is None,
{
    let one = seq![x];
    assert(one.to_set() =~= set![x]) by {
        assert(one[0] == x);
        assert forall|y: NodeId| one.to_set().contains(y) implies y == x by {
            let k = one.index_of(y);
        }
    }
    lemma_rising_set(one);
    let nothing = Seq::<u64>::empty();
    assert(nothing.to_set() =~= Set::<u64>::empty());
    lemma_rising_set(nothing);
}

/// The plans of the data groups that are marked for abort are exactly those that
/// are to be given up, each under its own group and id.
pub proof fn law_aborts_mark_what_is_given_up(
    directory: Seq<NodeEntryView>,
    parts: Parts,
    partition: u16,
    plan_id: u64,
)
    ensures
        aborts(directory, parts).contains(
            MetaCommandView::MarkAborting { group: GroupId::Data(partition), plan_id },
        ) <==> exists|k: int|
            {
                &&& 0 <= k < parts.len()
                &&& (#[trigger] parts[k]).0 == partition
                &&& doomed_plan(directory, parts[k].1) == Some(plan_id)
            },
        aborts(directory, parts).len() <= parts.len(),
    decreases parts.len(),
{
    let command = MetaCommandView::MarkAborting { group: GroupId::Data(partition), plan_id };
    if parts.len() > 0 {
        let init = parts.drop_last();
        law_aborts_mark_what_is_given_up(directory, init, partition, plan_id);
        let head = aborts(directory, init);
        let all = aborts(directory, parts);
        let last = parts.last();
        if all.contains(command) {
            let i = all.index_of(command);
            if i < head.len() {
                assert(head[i] == command);
                let k = choose|k: int|
                    {
                        &&& 0 <= k < init.len()
                        &&& (#[trigger] init[k]).0 == partition
                        &&& doomed_plan(directory, init[k].1) == Some(plan_id)
                    };
                assert(parts[k] == init[k]);
            } else {
                assert(parts[parts.len() - 1] == last);
            }
        }
        if exists|k: int|
            {
                &&& 0 <= k < parts.len()
                &&& (#[trigger] parts[k]).0 == partition
                &&& doomed_plan(directory, parts[k].1) == Some(plan_id)
            } {
            let k = choose|k: int|
                {
                    &&& 0 <= k < parts.len()
                    &&& (#[trigger] parts[k]).0 == partition
                    &&& doomed_plan(directory, parts[k].1) == Some(plan_id)
                };
            if k < init.len() {
                assert(init[k] == parts[k]);
                let i = head.index_of(command);
                assert(all[i] == command);
            } else {
                assert(all[head.len() as int] == command);
            }
        }
    }
}

/// A data move is planned if and only if every placement is known, none is moving
/// and the balance asks for one; the plan is complete if and only if every
/// placement is known.
pub proof fn law_planning_waits_for_every_placement(
    directory: Seq<NodeEntryView>,
    placements: Seq<Option<PlacementView>>,
    r: nat,
)
    requires
        placements.len() <= u16::MAX,
    ensures
        ({
            let p = planning(directory, placements, r);
            let known = forall|i: int| 0 <= i < placements.len() ==> (#[trigger] placements[i]) is Some;
            let parts = Parts::new(placements.len(), |i: int| (i as u16, placements[i]->0));
            &&& p.complete <==> known
            &&& known && (forall|i: int|
                0 <= i < placements.len() ==> (#[trigger] placements[i])->0.move_plan is None)
                ==> p.plan == proposal(directory, parts, r)
            &&& !known ==> p.plan is None
            &&& known && (exists|i: int|
                0 <= i < placements.len() && (#[trigger] placements[i])->0.move_plan is Some)
                ==> p.plan is None
        }),
{
    let known = forall|i: int| 0 <= i < placements.len() ==> (#[trigger] placements[i]) is Some;
    let parts = Parts::new(placements.len(), |i: int| (i as u16, placements[i]->0));
    let prefix = known_prefix(placements);
    if known {
        lemma_all_known(placements);
        assert(prefix =~= parts);
        if exists|i: int|
            0 <= i < placements.len() && (#[trigger] placements[i])->0.move_plan is Some {
            let i = choose|i: int|
                0 <= i < placements.len() && (#[trigger] placements[i])->0.move_plan is Some;
            assert(prefix[i].1.move_plan is Some);
        }
        if moving(prefix) {
            let i = choose|i: int|
                0 <= i < prefix.len() && (#[trigger] prefix[i]).1.move_plan is Some;
            assert(placements[i]->0.move_plan is Some);
        }
    } else {
        let i = choose|i: int| 0 <= i < placements.len() && !((#[trigger] placements[i]) is Some);
        lemma_prefix_stops(placements, i);
    }
}

proof fn lemma_all_known(placements: Seq<Option<PlacementView>>)
    requires
        forall|i: int| 0 <= i < placements.len() ==> (#[trigger] placements[i]) is Some,
    ensures
        known_prefix(placements).len() == placements.len(),
        forall|i: int|
            0 <= i < placements.len() ==> (#[trigger] known_prefix(placements)[i]) == (
                i as u16,
                placements[i]->0,
            ),
    decreases placements.len(),
{
    if placements.len() > 0 {
        let init = placements.drop_last();
        assert forall|i: int| 0 <= i < init.len() implies (#[trigger] init[i]) is Some by {
            assert(init[i] == placements[i]);
        }
        lemma_all_known(init);
        assert(placements.last() is Some) by {
            assert(placements[placements.len() - 1] is Some);
        }
        assert forall|i: int| 0 <= i < placements.len() implies (#[trigger] known_prefix(
            placements,
        )[i]) == (i as u16, placements[i]->0) by {
            if i < init.len() {
                assert(known_prefix(init)[i] == (i as u16, init[i]->0));
            }
        }
    }
}

/// The meta group replaces a voter if and only if it is placed with no move under
/// way, has a voter other than this node that is not active, and an active node is
/// free; the voters that stay keep their seats. It aborts a move if and only if that
/// is to be given up.
pub proof fn law_meta_voters_are_driven(
    node: NodeId,
    directory: Seq<NodeEntryView>,
    placement: Option<PlacementView>,
)
    ensures
        ({
            let p = placement->0;
            let step = meta_step(node, directory, placement);
            let lame = exists|i: int|
                0 <= i < p.voters.len() && #[trigger] p.voters[i] != node && state_of(
                    directory,
                    p.voters[i],
                ) != Some(NodeState::Active);
            let free = exists|i: int|
                0 <= i < directory.len() && (#[trigger] directory[i]).state == NodeState::Active
                    && !p.voters.contains(directory[i].node_id);
            &&& step is Plan <==> placement is Some && p.move_plan is None && lame && free
            &&& step matches MetaStepView::Abort(id) ==> placement is Some && doomed_plan(
                directory,
                p,
            ) == Some(id)
            &&& step is Abort <==> placement is Some && p.move_plan is Some && doomed_plan(
                directory,
                p,
            ) is Some
            &&& step matches MetaStepView::Plan(target) ==> exists|out: NodeId, into: NodeId|
                {
                    &&& out != node
                    &&& #[trigger] p.voters.contains(out)
                    &&& state_of(directory, out) != Some(NodeState::Active)
                    &&& !(#[trigger] p.voters.contains(into))
                    &&& forall|v: NodeId| #[trigger]
                        target.contains(v) <==> v == into || (p.voters.contains(v) && v != out)
                }
        }),
{
    if let Some(p) = placement {
        law_first_other_voter(p.voters, directory, node, false);
        law_spare_is_active_and_outside(directory, p.voters);
        if p.move_plan is None {
            if let (Some(out), Some(into)) = (
                first_other(p.voters, directory, node, false),
                spare(directory, p.voters),
            ) {
                let rest = without(p.voters, out);
                let list = rest.push(into);
                let target = sorted(list);
                lemma_without(p.voters, out);
                lemma_sorted(list);
                lemma_first_other(p.voters, directory, node, false);
                assert forall|v: NodeId| #[trigger]
                    target.contains(v) <==> v == into || (p.voters.contains(v) && v != out) by {
                    assert(target.to_set().contains(v) == list.to_set().contains(v));
                    if rest.contains(v) {
                        let k = rest.index_of(v);
                        assert(list[k] == v);
                    }
                    assert(list[rest.len() as int] == into);
                    if list.contains(v) && v != into {
                        let k = list.index_of(v);
                        assert(rest[k] == v);
                    }
                }
                assert(p.voters.contains(out) && !p.voters.contains(into));
            }
        }
    }
}

/// Only a meta leader whose cluster is founded acts. It hands its leadership to the
/// first other active voter if and only if it is itself a voter that is not active
/// and there is such a one; else it plans.
pub proof fn law_meta_leaders_act(
    node: NodeId,
    leader: Option<NodeId>,
    genesis_over: bool,
    directory: Seq<NodeEntryView>,
    placements: Seq<Option<PlacementView>>,
    meta: Option<PlacementView>,
    r: nat,
)
    ensures
        ({
            let role = meta_role(node, leader, genesis_over, directory, placements, meta, r);
            let acts = leader == Some(node) && genesis_over;
            let leaves = meta is Some && meta->0.voters.contains(node) && state_of(directory, node)
                != Some(NodeState::Active) && exists|i: int|
                0 <= i < meta->0.voters.len() && #[trigger] meta->0.voters[i] != node && state_of(
                    directory,
                    meta->0.voters[i],
                ) == Some(NodeState::Active);
            &&& role is Idle <==> !acts
            &&& role is HandOff <==> acts && leaves
            &&& role matches MetaRoleView::HandOff(to) ==> to != node && meta->0.voters.contains(to)
                && state_of(directory, to) == Some(NodeState::Active)
            &&& role matches MetaRoleView::Plan { data, meta: step } ==> data == planning(
                directory,
                placements,
                r,
            ) && (data.complete ==> step == meta_step(node, directory, meta)) && (!data.complete
                ==> step is Nothing)
        }),
{
    if let Some(p) = meta {
        law_first_other_voter(p.voters, directory, node, true);
        lemma_first_other(p.voters, directory, node, true);
    }
}

/// A data leader takes up what its placement says; a replica that does not lead does
/// nothing.
pub proof fn law_only_leaders_move(
    node: NodeId,
    leader: Option<NodeId>,
    placement: Option<PlacementView>,
    committed: Set<NodeId>,
)
    ensures
        leader != Some(node) ==> leader_step(node, leader, placement, committed)
            == ResumeStep::Nothing,
        leader == Some(node) && resume_decision(placement, committed) is Ok ==> leader_step(
            node,
            leader,
            placement,
            committed,
        ) == resume_decision(placement, committed)->Ok_0,
        resume_decision(placement, committed) is Err ==> leader_step(
            node,
            leader,
            placement,
            committed,
        ) == ResumeStep::Nothing,
{
}

/// A move goes through its stages in one order: admit the node, add it as a learner,
/// for a data group check its indexes, change the voters, report.
pub proof fn law_stages_follow_in_order(group: GroupId)
    ensures
        stage_after(group, MoveStage::Admit) == Some(MoveStage::AddLearner),
        group is Data ==> stage_after(group, MoveStage::AddLearner) == Some(
            MoveStage::CheckIndexes,
        ),
        group is Meta ==> stage_after(group, MoveStage::AddLearner) == Some(
            MoveStage::ChangeVoters,
        ),
        stage_after(group, MoveStage::CheckIndexes) == Some(MoveStage::ChangeVoters),
        stage_after(group, MoveStage::ChangeVoters) == Some(MoveStage::Report),
        stage_after(group, MoveStage::Report) is None,
{
}

/// A finished move is reported if and only if the confirmed voters, at a known
/// position, are its target, and an aborted one if and only if they are the target
/// or the voters it had. The report names the group, the plan, the position and
/// what is committed.
pub proof fn law_reports_say_what_is_committed(
    group: GroupId,
    plan_id: u64,
    voters: Seq<NodeId>,
    plan: MovePlanView,
    target: Seq<NodeId>,
    confirmed: Option<(Option<LogId>, Seq<NodeId>)>,
)
    ensures
        ({
            let (at, committed) = confirmed->0;
            let known = confirmed is Some && at is Some;
            let done = finalize_body(group, plan_id, target, confirmed);
            let undone = abort_body(group, voters, plan, confirmed);
            &&& done is Some <==> known && committed.to_set() == target.to_set()
            &&& done matches Some(body) ==> (body matches ObservationBodyView::Finalize {
                group: g,
                plan_id: id,
                observation: o,
            } && g == group && id == plan_id && o.group == group && o.plan_id == plan_id
                && o.voter_set == target && Some(o.config_log_id) == at)
            &&& undone is Some <==> known && (committed.to_set() == voters.to_set()
                || committed.to_set() == plan.target_voters.to_set())
            &&& undone matches Some(body) ==> (body matches ObservationBodyView::Abort {
                group: g,
                plan_id: id,
                observation: o,
            } && g == group && id == plan.plan_id && o.group == group && o.plan_id == plan.plan_id
                && o.voter_set.to_set() == committed.to_set() && Some(o.config_log_id) == at)
        }),
{
}

/// A learner must have built exactly what the catalog's indexes serve.
pub proof fn law_served_generations_are_required(
    records: Seq<RecordView>,
    name: Seq<char>,
    generation: u64,
    hash: DefinitionHash,
)
    ensures
        active_generations(records).contains((name, generation, hash)) <==> exists|i: int|
            {
                &&& 0 <= i < records.len()
                &&& (#[trigger] records[i]).name == name
                &&& records[i].active is Some
                &&& records[i].active->0.id == generation
                &&& records[i].active->0.definition_hash == hash
            },
    decreases records.len(),
{
    let g = (name, generation, hash);
    if records.len() > 0 {
        let init = records.drop_last();
        law_served_generations_are_required(init, name, generation, hash);
        let head = active_generations(init);
        let all = active_generations(records);
        if all.contains(g) {
            let i = all.index_of(g);
            if i < head.len() {
                assert(head[i] == g);
                let k = choose|k: int|
                    {
                        &&& 0 <= k < init.len()
                        &&& (#[trigger] init[k]).name == name
                        &&& init[k].active is Some
                        &&& init[k].active->0.id == generation
                        &&& init[k].active->0.definition_hash == hash
                    };
                assert(records[k] == init[k]);
            } else {
                assert(records[records.len() - 1] == records.last());
            }
        }
        if exists|i: int|
            {
                &&& 0 <= i < records.len()
                &&& (#[trigger] records[i]).name == name
                &&& records[i].active is Some
                &&& records[i].active->0.id == generation
                &&& records[i].active->0.definition_hash == hash
            } {
            let k = choose|k: int|
                {
                    &&& 0 <= k < records.len()
                    &&& (#[trigger] records[k]).name == name
                    &&& records[k].active is Some
                    &&& records[k].active->0.id == generation
                    &&& records[k].active->0.definition_hash == hash
                };
            if k < init.len() {
                assert(init[k] == records[k]);
                let i = head.index_of(g);
                assert(all[i] == g);
            } else {
                assert(all[head.len() as int] == g);
            }
        }
    }
}

/// A group is given up if and only if its placement is known and settled without
/// this node; a process is superseded if and only if the directory lists its node
/// at another incarnation or at another address.
pub proof fn law_giving_up(
    placement: Option<PlacementView>,
    node: NodeId,
    directory: Seq<NodeEntryView>,
    incarnation: u64,
    control_addr: Seq<char>,
    bulk_addr: Seq<char>,
)
    ensures
        reclaimable(placement, node) <==> placement is Some && placement->0.move_plan is None
            && !placement->0.voters.contains(node),
        ({
            let e = directory_entry(directory, node)->0;
            superseded(directory, node, incarnation, control_addr, bulk_addr) <==> directory_entry(
                directory,
                node,
            ) is Some && !(e.incarnation == incarnation && e.control_addr == control_addr
                && e.bulk_addr == bulk_addr)
        }),
        state_of(directory, node) == match directory_entry(directory, node) {
            Some(e) => Some(e.state),
            None => None,
        },
{
}

/// A report is sent exactly where one is due, and says what is due.
pub proof fn law_reports_are_due(r: Option<ObservationBody>, want: Option<ObservationBodyView>)
    requires
        reports(r, want),
    ensures
        r is Some <==> want is Some,
        r is Some ==> r->0@ == want->0,
{
}

} // verus!
