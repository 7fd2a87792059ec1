//! Failure detection: what liveness evidence says of a node, and which
//! directory transition it justifies.
//!
//! Heartbeats are evidence only. A transition takes effect when the meta group
//! commits it, and the incarnation guard there keeps a stale heartbeat from
//! reviving a node that is down.
use crate::config::Timeouts;
use crate::tables::{kept, value_of, NodeTable};
use crate::time::Duration;
use crate::types::{NodeId, NodeState, MAX_CLUSTER_NODES};
use vstd::prelude::*;

verus! {

/// Liveness inferred from the time since the last heartbeat.
#[derive(Debug, Clone, Copy, PartialEq, Eq, Structural)]
pub enum Liveness {
    Alive,
    Suspect,
    Down,
}

/// What a silence of so many nanoseconds is evidence of.
pub open spec fn liveness_of(silence: nat, timeouts: Timeouts) -> Liveness {
    if silence >= timeouts.down@ {
        Liveness::Down
    } else if silence >= timeouts.suspect@ {
        Liveness::Suspect
    } else {
        Liveness::Alive
    }
}

/// Classify the gap since the last heartbeat. `Down` outweighs `Suspect`.
pub fn classify(since_last_heartbeat: Duration, timeouts: &Timeouts) -> (l: Liveness)
    ensures
        l == liveness_of(since_last_heartbeat@, *timeouts),
{
    if since_last_heartbeat.as_nanos() >= timeouts.down.as_nanos() {
        Liveness::Down
    } else if since_last_heartbeat.as_nanos() >= timeouts.suspect.as_nanos() {
        Liveness::Suspect
    } else {
        Liveness::Alive
    }
}

/// The transition that evidence justifies for a node in a state, if any.
pub open spec fn transition(current: NodeState, evidence: Liveness) -> Option<NodeState> {
    match (current, evidence) {
        (NodeState::Suspect, Liveness::Alive) => Some(NodeState::Active),
        (NodeState::Active, Liveness::Suspect) => Some(NodeState::Suspect),
        (NodeState::Active, Liveness::Down) => Some(NodeState::Down),
        (NodeState::Suspect, Liveness::Down) => Some(NodeState::Down),
        _ => None,
    }
}

/// The transition that evidence justifies, if any. A node that is down comes
/// back only by an explicit rejoin, and one that drains is not moved.
pub fn next_state(current: NodeState, evidence: Liveness) -> (r: Option<NodeState>)
    ensures
        r == transition(current, evidence),
{
    match (current, evidence) {
        (NodeState::Suspect, Liveness::Alive) => Some(NodeState::Active),
        (NodeState::Active, Liveness::Suspect) => Some(NodeState::Suspect),
        (NodeState::Active, Liveness::Down) => Some(NodeState::Down),
        (NodeState::Suspect, Liveness::Down) => Some(NodeState::Down),
        _ => None,
    }
}

/// A heartbeat's stamp: directory incarnation, process incarnation, sequence.
pub type Stamp = (u64, u64, u64);

/// A committed directory state: the node, its state, its incarnation.
pub type DirectoryState = (NodeId, NodeState, u64);

/// Whether a stamp is later than another.
pub open spec fn newer(a: Stamp, b: Stamp) -> bool {
    a.0 > b.0 || (a.0 == b.0 && (a.1 > b.1 || (a.1 == b.1 && a.2 > b.2)))
}

/// What the tracker has seen.
#[verifier::ext_equal]
pub struct TrackerView {
    /// When each node was last heard, in milliseconds.
    pub seen: Map<NodeId, u64>,
    /// The last stamp of each node.
    pub stamps: Map<NodeId, Stamp>,
    /// For a node not heard in its committed incarnation: that incarnation, and
    /// since when it is being waited for.
    pub grace: Map<NodeId, (u64, u64)>,
}

/// Whether a heartbeat counts: later than the last one of its node, or the first
/// of a node for which there is room.
pub open spec fn counts(t: TrackerView, node: NodeId, stamp: Stamp) -> bool {
    match value_of(t.stamps, node) {
        Some(last) => newer(stamp, last),
        None => t.stamps.len() < MAX_CLUSTER_NODES,
    }
}

/// The tracker after a heartbeat.
pub open spec fn heard(t: TrackerView, node: NodeId, stamp: Stamp, now_ms: u64) -> TrackerView {
    if counts(t, node, stamp) {
        TrackerView {
            seen: t.seen.insert(node, now_ms),
            stamps: t.stamps.insert(node, stamp),
            ..t
        }
    } else {
        t
    }
}

/// The milliseconds from one time to a later one; none if it is not later.
pub open spec fn elapsed(since: u64, now_ms: u64) -> u64 {
    if now_ms >= since {
        (now_ms - since) as u64
    } else {
        0
    }
}

/// Whether the node's last heartbeat was of its committed incarnation.
pub open spec fn heard_in(t: TrackerView, node: NodeId, incarnation: u64) -> bool {
    value_of(t.stamps, node) matches Some(stamp) && stamp.0 == incarnation
}

/// How long a node has been silent in its committed incarnation. A node that is
/// waited for in that incarnation for the first time gives none.
pub open spec fn silence(t: TrackerView, node: NodeId, incarnation: u64, now_ms: u64) -> Option<
    u64,
> {
    if heard_in(t, node, incarnation) {
        match value_of(t.seen, node) {
            Some(seen) => Some(elapsed(seen, now_ms)),
            None => None,
        }
    } else {
        match value_of(t.grace, node) {
            Some((expected, since)) => if expected == incarnation {
                Some(elapsed(since, now_ms))
            } else {
                None
            },
            None => None,
        }
    }
}

/// The tracker after a node's silence was asked for: the wait for a node ends
/// when it is heard, and begins anew with a new incarnation.
pub open spec fn awaited(t: TrackerView, node: NodeId, incarnation: u64, now_ms: u64) -> TrackerView {
    if heard_in(t, node, incarnation) {
        TrackerView { grace: t.grace.remove(node), ..t }
    } else if value_of(t.grace, node) matches Some((expected, _)) && expected == incarnation {
        t
    } else {
        TrackerView { grace: t.grace.insert(node, (incarnation, now_ms)), ..t }
    }
}

/// The transition that a node's silence justifies.
pub open spec fn verdict(t: TrackerView, state: DirectoryState, now_ms: u64, timeouts: Timeouts) -> Option<
    NodeState,
> {
    match silence(t, state.0, state.2, now_ms) {
        Some(ms) => transition(state.1, liveness_of((ms * 1_000_000) as nat, timeouts)),
        None => None,
    }
}

/// The nodes of a list of directory states.
pub open spec fn listed(states: Seq<DirectoryState>) -> Seq<NodeId> {
    states.map_values(|s: DirectoryState| s.0)
}

/// The tracker without the nodes that the directory does not list.
pub open spec fn pruned(t: TrackerView, states: Seq<DirectoryState>) -> TrackerView {
    TrackerView {
        seen: kept(t.seen, listed(states)),
        stamps: kept(t.stamps, listed(states)),
        grace: kept(t.grace, listed(states)),
    }
}

/// The transitions that the directory's states justify one after the other, with
/// the tracker that the questions leave.
pub open spec fn sweep(
    t: TrackerView,
    states: Seq<DirectoryState>,
    now_ms: u64,
    timeouts: Timeouts,
) -> (TrackerView, Seq<(NodeId, NodeState)>)
    decreases states.len(),
{
    if states.len() == 0 {
        (t, Seq::empty())
    } else {
        let (u, out) = sweep(t, states.drop_last(), now_ms, timeouts);
        let last = states.last();
        (
            awaited(u, last.0, last.2, now_ms),
            match verdict(u, last, now_ms, timeouts) {
                Some(next) => out.push((last.0, next)),
                None => out,
            },
        )
    }
}

/// Per-node heartbeat liveness on the meta leader. Time is an argument, so the
/// detector depends on no clock.
pub struct HeartbeatTracker {
    last_seen_ms: NodeTable<u64>,
    last_stamp: NodeTable<Stamp>,
    unobserved_since_ms: NodeTable<(u64, u64)>,
}

impl View for HeartbeatTracker {
    type V = TrackerView;

    closed spec fn view(&self) -> TrackerView {
        TrackerView {
            seen: self.last_seen_ms@,
            stamps: self.last_stamp@,
            grace: self.unobserved_since_ms@,
        }
    }
}

impl HeartbeatTracker {
    pub closed spec fn valid(&self) -> bool {
        self.last_seen_ms.valid() && self.last_stamp.valid() && self.unobserved_since_ms.valid()
    }

    pub fn new() -> (t: HeartbeatTracker)
        ensures
            t.valid(),
            t@ == (TrackerView { seen: Map::empty(), stamps: Map::empty(), grace: Map::empty() }),
    {
        HeartbeatTracker {
            last_seen_ms: NodeTable::new(),
            last_stamp: NodeTable::new(),
            unobserved_since_ms: NodeTable::new(),
        }
    }

    /// How many nodes have a stamp.
    pub fn nodes_held(&self) -> (n: usize)
        requires
            self.valid(),
        ensures
            n == self@.stamps.len(),
            self@.stamps.dom().finite(),
    {
        self.last_stamp.count()
    }

    /// When a node was last heard.
    pub fn last_seen(&self, node: NodeId) -> (r: Option<u64>)
        ensures
            r == value_of(self@.seen, node),
    {
        self.last_seen_ms.lookup(node)
    }

    /// Record a heartbeat; a stale or replayed one is ignored. Once as many nodes
    /// are held as a cluster can have, an unknown one is refused rather than a
    /// known one evicted.
    pub fn observe(
        &mut self,
        node: NodeId,
        incarnation: u64,
        process_incarnation: u64,
        seq: u64,
        now_ms: u64,
    ) -> (accepted: bool)
        requires
            old(self).valid(),
        ensures
            final(self).valid(),
            old(self)@.stamps.dom().finite(),
            final(self)@.stamps.dom().finite(),
            accepted == counts(old(self)@, node, (incarnation, process_incarnation, seq)),
            final(self)@ == heard(
                old(self)@,
                node,
                (incarnation, process_incarnation, seq),
                now_ms,
            ),
    {
        proof {
            self.last_stamp.lemma_finite();
        }
        match self.last_stamp.lookup(node) {
            Some(last) => {
                if incarnation < last.0 || (incarnation == last.0 && (process_incarnation < last.1
                    || (process_incarnation == last.1 && seq <= last.2))) {
                    return false;
                }
            },
            None => {
                if self.last_stamp.count() >= MAX_CLUSTER_NODES {
                    return false;
                }
            },
        }
        self.last_stamp.insert(node, (incarnation, process_incarnation, seq));
        self.last_seen_ms.insert(node, now_ms);
        true
    }

    fn silence_ms(&mut self, node: NodeId, incarnation: u64, now_ms: u64) -> (r: Option<u64>)
        requires
            old(self).valid(),
        ensures
            final(self).valid(),
            r == silence(old(self)@, node, incarnation, now_ms),
            final(self)@ == awaited(old(self)@, node, incarnation, now_ms),
    {
        let observed: bool = match self.last_stamp.lookup(node) {
            Some(stamp) => stamp.0 == incarnation,
            None => false,
        };
        if observed {
            self.unobserved_since_ms.remove(node);
            return match self.last_seen_ms.lookup(node) {
                Some(seen) => Some(now_ms.saturating_sub(seen)),
                None => None,
            };
        }
        match self.unobserved_since_ms.lookup(node) {
            Some((expected, since)) if expected == incarnation => Some(
                now_ms.saturating_sub(since),
            ),
            _ => {
                self.unobserved_since_ms.insert(node, (incarnation, now_ms));
                None
            },
        }
    }

    /// The transitions that current liveness justifies, given each node's
    /// committed state and incarnation. Nodes that the directory does not list
    /// are forgotten first.
    pub fn evaluate(&mut self, now_ms: u64, timeouts: &Timeouts, states: &[DirectoryState]) -> (out:
        Vec<(NodeId, NodeState)>)
        requires
            old(self).valid(),
        ensures
            final(self).valid(),
            (final(self)@, out@) == sweep(pruned(old(self)@, states@), states@, now_ms, *timeouts),
    {
        let mut known: Vec<NodeId> = Vec::new();
        let mut i: usize = 0;
        while i < states.len()
            invariant
                i <= states@.len(),
                known@ == listed(states@).take(i as int),
            decreases states@.len() - i,
        {
            known.push(states[i].0);
            i += 1;
        }
        assert(known@ =~= listed(states@));
        self.last_stamp.retain(&known);
        self.last_seen_ms.retain(&known);
        self.unobserved_since_ms.retain(&known);
        let ghost start = self@;
        assert(start =~= pruned(old(self)@, states@));
        let mut out: Vec<(NodeId, NodeState)> = Vec::new();
        let mut j: usize = 0;
        assert(states@.take(0) =~= Seq::<DirectoryState>::empty());
        while j < states.len()
            invariant
                j <= states@.len(),
                self.valid(),
                (self@, out@) == sweep(start, states@.take(j as int), now_ms, *timeouts),
            decreases states@.len() - j,
        {
            let state: DirectoryState = states[j];
            proof {
                assert(states@.take(j + 1).drop_last() =~= states@.take(j as int));
                assert(states@.take(j + 1).last() == state);
            }
            if let Some(ms) = self.silence_ms(state.0, state.2, now_ms) {
                let evidence = classify(Duration::from_millis(ms), timeouts);
                if let Some(next) = next_state(state.1, evidence) {
                    out.push((state.0, next));
                }
            }
            j += 1;
        }
        assert(states@.take(j as int) =~= states@);
        out
    }
}

impl Default for HeartbeatTracker {
    fn default() -> (t: HeartbeatTracker)
        ensures
            t.valid(),
            t@ == (TrackerView { seen: Map::empty(), stamps: Map::empty(), grace: Map::empty() }),
    {
        HeartbeatTracker::new()
    }
}

// -- laws --------------------------------------------------------------------

/// No evidence moves a node that is down or draining.
pub proof fn law_down_and_draining_stay(evidence: Liveness)
    ensures
        transition(NodeState::Down, evidence) is None,
        transition(NodeState::Draining, evidence) is None,
{
}

/// A silence is evidence of `Down` if and only if it has lasted at least the down
/// timeout; short of that it is evidence of `Suspect` if and only if it has lasted
/// at least the suspect timeout, and else the node counts as alive.
pub proof fn law_timeouts_decide(silence: nat, timeouts: Timeouts)
    ensures
        liveness_of(silence, timeouts) is Down <==> timeouts.down@ <= silence,
        liveness_of(silence, timeouts) is Suspect <==> timeouts.suspect@ <= silence
            < timeouts.down@,
        liveness_of(silence, timeouts) is Alive <==> silence < timeouts.suspect@ && silence
            < timeouts.down@,
{
}

/// Evidence moves a node only between the three states it bears on: to `Down` from
/// the other two exactly when it says so, from active to suspect and back.
pub proof fn law_evidence_moves_nodes(current: NodeState, evidence: Liveness)
    ensures
        transition(current, evidence) == Some(NodeState::Down) <==> evidence is Down && (current
            == NodeState::Active || current == NodeState::Suspect),
        transition(current, evidence) == Some(NodeState::Suspect) <==> evidence is Suspect
            && current == NodeState::Active,
        transition(current, evidence) == Some(NodeState::Active) <==> evidence is Alive && current
            == NodeState::Suspect,
        transition(current, evidence) != Some(NodeState::Draining),
        transition(current, evidence) != Some(current),
{
}

/// A longer silence is never better evidence.
pub proof fn law_silence_only_worsens(a: nat, b: nat, timeouts: Timeouts)
    requires
        a <= b,
    ensures
        liveness_of(b, timeouts) is Alive ==> liveness_of(a, timeouts) is Alive,
        liveness_of(a, timeouts) is Down ==> liveness_of(b, timeouts) is Down,
{
}

/// A heartbeat counts once: after it, neither it nor any earlier one of its node
/// counts.
pub proof fn law_heartbeats_count_once(
    t: TrackerView,
    node: NodeId,
    stamp: Stamp,
    earlier: Stamp,
    now_ms: u64,
)
    requires
        counts(t, node, stamp),
        !newer(earlier, stamp),
    ensures
        !counts(heard(t, node, stamp, now_ms), node, earlier),
{
}

/// However many nodes send heartbeats, no more are held than a cluster can
/// have; and one that is held can always refresh.
pub proof fn law_tracking_is_bounded(t: TrackerView, node: NodeId, stamp: Stamp, now_ms: u64)
    requires
        t.stamps.dom().finite(),
        t.stamps.len() <= MAX_CLUSTER_NODES,
    ensures
        heard(t, node, stamp, now_ms).stamps.len() <= MAX_CLUSTER_NODES,
        value_of(t.stamps, node) matches Some(last) ==> newer(stamp, last) ==> counts(
            t,
            node,
            stamp,
        ),
{
}

/// Asking for a node's silence touches no other node, and no heartbeat.
pub proof fn law_questions_keep_evidence(
    t: TrackerView,
    states: Seq<DirectoryState>,
    now_ms: u64,
    timeouts: Timeouts,
    node: NodeId,
)
    ensures
        ({
            let u = sweep(t, states, now_ms, timeouts).0;
            &&& u.seen == t.seen
            &&& u.stamps == t.stamps
            &&& !listed(states).contains(node) ==> value_of(u.grace, node) == value_of(
                t.grace,
                node,
            )
        }),
    decreases states.len(),
{
    if states.len() > 0 {
        law_questions_keep_evidence(t, states.drop_last(), now_ms, timeouts, node);
        if !listed(states).contains(node) {
            let l = listed(states);
            assert(l[states.len() - 1] == states.last().0);
            assert forall|i: int| 0 <= i < states.drop_last().len() implies #[trigger] listed(
                states.drop_last(),
            )[i] != node by {
                assert(l[i] == listed(states.drop_last())[i]);
            }
        }
    }
}

/// Every proposed transition is one that some listed state and liveness
/// justifies: it never leads out of down or draining, and never into draining.
pub proof fn law_proposals_are_justified(
    t: TrackerView,
    states: Seq<DirectoryState>,
    now_ms: u64,
    timeouts: Timeouts,
    i: int,
)
    requires
        0 <= i < sweep(t, states, now_ms, timeouts).1.len(),
    ensures
        ({
            let (node, next) = sweep(t, states, now_ms, timeouts).1[i];
            exists|k: int, e: Liveness|
                0 <= k < states.len() && (#[trigger] states[k]).0 == node && #[trigger] transition(
                    states[k].1,
                    e,
                ) == Some(next)
        }),
    decreases states.len(),
{
    if states.len() > 0 {
        let (u, out) = sweep(t, states.drop_last(), now_ms, timeouts);
        let last = states.last();
        let (node, next) = sweep(t, states, now_ms, timeouts).1[i];
        if i < out.len() {
            law_proposals_are_justified(t, states.drop_last(), now_ms, timeouts, i);
            let (k, e) = choose|k: int, e: Liveness|
                0 <= k < states.drop_last().len() && (#[trigger] states.drop_last()[k]).0 == node
                    && #[trigger] transition(states.drop_last()[k].1, e) == Some(next);
            assert(states[k].0 == node && transition(states[k].1, e) == Some(next));
        } else {
            let ms = silence(u, last.0, last.2, now_ms)->0;
            let e = liveness_of((ms * 1_000_000) as nat, timeouts);
            assert(states[states.len() - 1].0 == node && transition(
                states[states.len() - 1].1,
                e,
            ) == Some(next));
        }
    }
}

/// A node not yet heard in its committed incarnation gets a full period of
/// grace: nothing is proposed when it is first met, and from then on its silence
/// counts from that time, whatever heartbeats of other incarnations arrive.
pub proof fn law_grace_period(
    t: TrackerView,
    node: NodeId,
    state: NodeState,
    incarnation: u64,
    met: u64,
    later: u64,
    stale: Stamp,
    timeouts: Timeouts,
)
    requires
        !heard_in(t, node, incarnation),
        !(value_of(t.grace, node) matches Some((expected, _)) && expected == incarnation),
        met <= later,
        stale.0 != incarnation,
    ensures
        verdict(t, (node, state, incarnation), met, timeouts) is None,
        ({
            let u = heard(awaited(t, node, incarnation, met), node, stale, later);
            silence(u, node, incarnation, later) == Some((later - met) as u64)
        }),
{
}

/// The nanoseconds in the time from one millisecond mark to another, none where
/// the other is not later.
pub open spec fn nanos_between(since: u64, now_ms: u64) -> int {
    if since <= now_ms {
        (now_ms - since) * 1_000_000
    } else {
        0
    }
}

/// A node heard in its committed incarnation is judged by the time since it was
/// last heard, and one not heard in it by the time since it is waited for in it;
/// one that is not waited for yet is not judged. It is called down only when that
/// time has reached the down timeout, suspect only when it has reached the suspect
/// timeout but not the down timeout, and active again only short of both.
pub proof fn law_verdicts_follow_the_timeouts(
    t: TrackerView,
    node: NodeId,
    state: NodeState,
    incarnation: u64,
    since: u64,
    now_ms: u64,
    timeouts: Timeouts,
)
    ensures
        ({
            let judged = verdict(t, (node, state, incarnation), now_ms, timeouts);
            let heard_now = t.stamps.contains_key(node) && t.stamps[node].0 == incarnation;
            let waited = t.grace.contains_key(node) && t.grace[node].0 == incarnation;
            let basis = (heard_now && t.seen.contains_key(node) && t.seen[node] == since) || (
            !heard_now && waited && t.grace[node].1 == since);
            let gap = nanos_between(since, now_ms);
            let movable = state == NodeState::Active || state == NodeState::Suspect;
            &&& basis ==> (judged == Some(NodeState::Down) <==> movable && gap >= timeouts.down@)
            &&& basis ==> (judged == Some(NodeState::Suspect) <==> state == NodeState::Active
                && timeouts.suspect@ <= gap < timeouts.down@)
            &&& basis ==> (judged == Some(NodeState::Active) <==> state == NodeState::Suspect && gap
                < timeouts.suspect@ && gap < timeouts.down@)
            &&& judged != Some(NodeState::Draining)
            &&& heard_now && !t.seen.contains_key(node) ==> judged is None
            &&& !heard_now && !waited ==> judged is None
        }),
{
}

/// A heartbeat counts when its stamp is later than the node's last one: a later
/// directory incarnation, or the same with a later process incarnation, or the
/// same again with a later sequence. It then sets the node's time and stamp, and
/// touches no other node; one that does not count changes nothing.
pub proof fn law_heartbeats_take_effect(
    t: TrackerView,
    node: NodeId,
    stamp: Stamp,
    now_ms: u64,
    other: NodeId,
)
    ensures
        ({
            let u = heard(t, node, stamp, now_ms);
            let last = t.stamps[node];
            &&& t.stamps.contains_key(node) ==> (counts(t, node, stamp) <==> stamp.0 > last.0 || (
            stamp.0 == last.0 && stamp.1 > last.1) || (stamp.0 == last.0 && stamp.1 == last.1
                && stamp.2 > last.2))
            &&& !t.stamps.contains_key(node) ==> (counts(t, node, stamp) <==> t.stamps.len()
                < MAX_CLUSTER_NODES)
            &&& counts(t, node, stamp) ==> u.seen.contains_key(node) && u.seen[node] == now_ms
                && u.stamps.contains_key(node) && u.stamps[node] == stamp
            &&& !counts(t, node, stamp) ==> u == t
            &&& u.grace == t.grace
            &&& other != node ==> value_of(u.seen, other) == value_of(t.seen, other) && value_of(
                u.stamps,
                other,
            ) == value_of(t.stamps, other)
        }),
{
}

/// The wait for a node begins when its silence is first asked for in an incarnation
/// it was not heard in, does not begin again, and ends when it is heard in it.
pub proof fn law_waiting_begins_once(
    t: TrackerView,
    node: NodeId,
    incarnation: u64,
    now_ms: u64,
    later: u64,
)
    ensures
        ({
            let u = awaited(t, node, incarnation, now_ms);
            let heard_now = t.stamps.contains_key(node) && t.stamps[node].0 == incarnation;
            let waited = t.grace.contains_key(node) && t.grace[node].0 == incarnation;
            &&& u.seen == t.seen && u.stamps == t.stamps
            &&& heard_now ==> !u.grace.contains_key(node)
            &&& !heard_now ==> u.grace.contains_key(node) && u.grace[node] == if waited {
                t.grace[node]
            } else {
                (incarnation, now_ms)
            }
            &&& awaited(u, node, incarnation, later) == u
        }),
{
    let u = awaited(t, node, incarnation, now_ms);
    if heard_in(t, node, incarnation) {
        assert(u.grace.remove(node) =~= u.grace);
    }
}

/// A silence asked for does not change what another node's silence says.
proof fn lemma_sweep_keeps_verdicts(
    t: TrackerView,
    states: Seq<DirectoryState>,
    now_ms: u64,
    timeouts: Timeouts,
    state: DirectoryState,
)
    requires
        !listed(states).contains(state.0),
    ensures
        verdict(sweep(t, states, now_ms, timeouts).0, state, now_ms, timeouts) == verdict(
            t,
            state,
            now_ms,
            timeouts,
        ),
{
    law_questions_keep_evidence(t, states, now_ms, timeouts, state.0);
}

/// Over a directory that lists each node once, exactly the verdicts on the listed
/// states are proposed: one for each state that has one, in the directory's order,
/// and none else.
pub proof fn law_proposals_are_the_verdicts(
    t: TrackerView,
    states: Seq<DirectoryState>,
    now_ms: u64,
    timeouts: Timeouts,
    node: NodeId,
    next: NodeState,
)
    requires
        listed(states).no_duplicates(),
    ensures
        sweep(t, states, now_ms, timeouts).1.contains((node, next)) <==> exists|k: int|
            {
                &&& 0 <= k < states.len()
                &&& (#[trigger] states[k]).0 == node
                &&& verdict(t, states[k], now_ms, timeouts) == Some(next)
            },
        sweep(t, states, now_ms, timeouts).1.len() <= states.len(),
    decreases states.len(),
{
    if states.len() > 0 {
        let init = states.drop_last();
        let last = states.last();
        let (u, out) = sweep(t, init, now_ms, timeouts);
        let all = sweep(t, states, now_ms, timeouts).1;
        let l = listed(states);
        assert(listed(init) =~= l.drop_last());
        assert(!listed(init).contains(last.0)) by {
            if listed(init).contains(last.0) {
                let k = listed(init).index_of(last.0);
                assert(l[k] == l[states.len() - 1]);
            }
        }
        law_proposals_are_the_verdicts(t, init, now_ms, timeouts, node, next);
        lemma_sweep_keeps_verdicts(t, init, now_ms, timeouts, last);
        if all.contains((node, next)) {
            let i = all.index_of((node, next));
            if i < out.len() {
                assert(out[i] == (node, next));
                let k = choose|k: int|
                    {
                        &&& 0 <= k < init.len()
                        &&& (#[trigger] init[k]).0 == node
                        &&& verdict(t, init[k], now_ms, timeouts) == Some(next)
                    };
                assert(states[k] == init[k]);
            } else {
                assert(states[states.len() - 1] == last);
            }
        }
        if exists|k: int|
            {
                &&& 0 <= k < states.len()
                &&& (#[trigger] states[k]).0 == node
                &&& verdict(t, states[k], now_ms, timeouts) == Some(next)
            } {
            let k = choose|k: int|
                {
                    &&& 0 <= k < states.len()
                    &&& (#[trigger] states[k]).0 == node
                    &&& verdict(t, states[k], now_ms, timeouts) == Some(next)
                };
            if k < init.len() {
                assert(init[k] == states[k]);
                let i = out.index_of((node, next));
                assert(all[i] == (node, next));
            } else {
                assert(all[out.len() as int] == (node, next));
            }
        }
    }
}

/// A node that the directory does not list is forgotten; of a listed one nothing is.
pub proof fn law_unlisted_nodes_are_forgotten(
    t: TrackerView,
    states: Seq<DirectoryState>,
    node: NodeId,
)
    ensures
        ({
            let u = pruned(t, states);
            let listed_here = exists|i: int|
                0 <= i < states.len() && (#[trigger] states[i]).0 == node;
            &&& listed_here ==> value_of(u.seen, node) == value_of(t.seen, node) && value_of(
                u.stamps,
                node,
            ) == value_of(t.stamps, node) && value_of(u.grace, node) == value_of(t.grace, node)
            &&& !listed_here ==> value_of(u.seen, node) is None && value_of(u.stamps, node) is None
                && value_of(u.grace, node) is None
        }),
{
    let l = listed(states);
    if l.contains(node) {
        let i = l.index_of(node);
        assert(states[i].0 == node);
    }
    if exists|i: int| 0 <= i < states.len() && (#[trigger] states[i]).0 == node {
        let i = choose|i: int| 0 <= i < states.len() && (#[trigger] states[i]).0 == node;
        assert(l[i] == node);
    }
}

} // verus!
