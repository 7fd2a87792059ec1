//! The client's side: routing, redirects and idempotent retries.
//!
//! Routing is advice, so the client keeps what it learns and tries what it knows:
//! the leader it heard of last, then the voters. A mutation keeps its sequence
//! over every retry, so that one across a change of leader applies once.
use crate::api::ops::{
    ClientReply, ClientReplyView, Redirect, RedirectView, RoutingInfo, RoutingView, WriteReply,
};
use crate::assoc::{
    del, get, keys_distinct, lemma_del, lemma_put, lemma_slot, lemma_slot_is, put, slot,
};
use crate::error::{Error, ErrorView};
use crate::hashing::partition_of_key;
use crate::partition::table::same_bytes;
use crate::sets::{lemma_merged, merge_ids, merged};
use crate::tables::{value_of, NodeTable};
use crate::text::{decimal, prefixed, to_decimal};
use crate::transport::{Envelope, MsgType};
use crate::types::{
    ClientId, ClusterId, Consistency, DataOp, DataOpView, DataRequest, DataRequestView, HashSpec,
    IfVersion, LogId, NodeId, Sequence, Version,
};
use vstd::prelude::*;

verus! {

/// How many rounds over the candidates one operation makes before it gives up.
pub const MAX_ROUNDS: usize = 16;

/// In which order the candidates of an operation are tried.
#[derive(Debug, Clone, Copy, PartialEq, Eq, Structural)]
pub enum RouteOrder {
    /// The known leader first, then the voters.
    LeaderFirst,
    /// The voters from a place that moves on with every call; with a version to
    /// reach, the known leader still goes first.
    Spread { prefer_hint: bool },
}

/// Candidates that redirects named, with the placement known at that time.
struct RedirectHints {
    learned_at: Option<LogId>,
    candidates: Vec<NodeId>,
}

/// The content of redirect hints.
#[verifier::ext_equal]
pub struct HintsView {
    pub learned_at: Option<LogId>,
    pub candidates: Seq<NodeId>,
}

impl View for RedirectHints {
    type V = HintsView;

    closed spec fn view(&self) -> HintsView {
        HintsView { learned_at: self.learned_at, candidates: self.candidates@ }
    }
}

/// Whether one log position is after another.
pub open spec fn later(a: LogId, b: LogId) -> bool {
    a.term > b.term || (a.term == b.term && a.index > b.index)
}

impl HintsView {
    /// Whether a placement committed at a position accounts for everything that
    /// the redirects taught.
    pub open spec fn subsumed_by(self, log_id: LogId) -> bool {
        match self.learned_at {
            Some(learned) => later(log_id, learned),
            None => true,
        }
    }
}

/// A mutation whose outcome is not known yet.
struct PendingMutation {
    sequence: Sequence,
    op: DataOp,
}

/// The content of a pending mutation.
#[verifier::ext_equal]
pub struct PendingView {
    pub sequence: Sequence,
    pub op: DataOpView,
}

impl View for PendingMutation {
    type V = PendingView;

    closed spec fn view(&self) -> PendingView {
        PendingView { sequence: self.sequence, op: self.op@ }
    }
}

/// A client's routing cache and mutation streams.
pub struct Client {
    cluster_id: ClusterId,
    client_id: ClientId,
    routing: Option<RoutingInfo>,
    leader_hint: NodeTable<NodeId>,
    redirect_candidates: Vec<(u16, RedirectHints)>,
    next_seq: NodeTable<Sequence>,
    pending: Vec<(u16, PendingMutation)>,
    request_id: u64,
    rotation: u64,
}

/// The content of a client.
#[verifier::ext_equal]
pub struct ClientView {
    pub cluster_id: ClusterId,
    pub client_id: ClientId,
    pub routing: Option<RoutingView>,
    /// The leader heard of last, by partition.
    pub leader_hint: Map<u64, NodeId>,
    /// What redirects taught, by partition.
    pub hints: Seq<(u16, HintsView)>,
    /// The next unused sequence, by partition; streams start at 1.
    pub next_seq: Map<u64, Sequence>,
    /// The unresolved mutation, by partition.
    pub pending: Seq<(u16, PendingView)>,
    pub request_id: u64,
    pub rotation: u64,
}

impl View for Client {
    type V = ClientView;

    closed spec fn view(&self) -> ClientView {
        ClientView {
            cluster_id: self.cluster_id,
            client_id: self.client_id,
            routing: match self.routing {
                Some(info) => Some(info@),
                None => None,
            },
            leader_hint: self.leader_hint@,
            hints: self.redirect_candidates@.map_values(
                |e: (u16, RedirectHints)| (e.0, e.1@),
            ),
            next_seq: self.next_seq@,
            pending: self.pending@.map_values(|e: (u16, PendingMutation)| (e.0, e.1@)),
            request_id: self.request_id,
            rotation: self.rotation,
        }
    }
}

/// A list from a place on, and then its beginning.
pub open spec fn rotated(s: Seq<NodeId>, shift: int) -> Seq<NodeId> {
    s.skip(shift) + s.take(shift)
}

/// The number after another; it starts over past the greatest.
pub open spec fn next_number(n: u64) -> u64 {
    if n == u64::MAX {
        0
    } else {
        (n + 1) as u64
    }
}

impl ClientView {
    pub open spec fn hint(self, partition: u16) -> Option<NodeId> {
        value_of(self.leader_hint, partition as u64)
    }

    /// What redirects named for a partition.
    pub open spec fn redirected(self, partition: u16) -> Seq<NodeId> {
        match get(self.hints, partition) {
            Some(h) => h.candidates,
            None => Seq::empty(),
        }
    }

    /// The nodes known for a partition: those of the routing snapshot, then those
    /// that redirects named beside them.
    pub open spec fn known(self, partition: u16) -> Seq<NodeId> {
        match self.routing {
            Some(info) => merged(info.candidates(partition), self.redirected(partition)),
            None => self.redirected(partition),
        }
    }

    /// Where a spread order starts among the known nodes.
    pub open spec fn shift(self, partition: u16, order: RouteOrder) -> int {
        if order is Spread && self.routing is Some && self.known(partition).len() > 0 {
            self.rotation as int % self.known(partition).len() as int
        } else {
            0
        }
    }

    /// The candidates of a partition in the order in which they are tried.
    pub open spec fn ordered(self, partition: u16, order: RouteOrder) -> Seq<NodeId> {
        let lead = order is LeaderFirst || order == (RouteOrder::Spread { prefer_hint: true });
        let rest = rotated(self.known(partition), self.shift(partition, order));
        match self.hint(partition) {
            Some(h) => if !lead {
                if self.routing is Some {
                    merged(Seq::empty(), rest)
                } else {
                    rest
                }
            } else if self.routing is Some {
                merged(seq![h], rest)
            } else if rest.contains(h) {
                rest
            } else {
                seq![h] + rest
            },
            None => if self.routing is Some {
                merged(Seq::empty(), rest)
            } else {
                rest
            },
        }
    }

    /// The client after it ordered candidates: a spread order moves the start on.
    pub open spec fn after_ordering(self, partition: u16, order: RouteOrder) -> ClientView {
        if order is Spread && self.routing is Some && self.known(partition).len() > 0 {
            ClientView { rotation: next_number(self.rotation), ..self }
        } else {
            self
        }
    }

    /// The client after a redirect from a node.
    pub open spec fn after_redirect(self, partition: u16, from: NodeId, r: RedirectView) -> ClientView {
        let learned_at = match self.routing {
            Some(info) => match info.placement(partition) {
                Some(p) => Some(p.voters_log_id),
                None => None,
            },
            None => None,
        };
        ClientView {
            hints: put(
                self.hints,
                partition,
                HintsView {
                    learned_at,
                    candidates: merged(self.redirected(partition), r.candidates),
                },
            ),
            leader_hint: match r.leader {
                Some(leader) => self.leader_hint.insert(partition as u64, leader),
                None => if self.hint(partition) == Some(from) {
                    self.leader_hint.remove(partition as u64)
                } else {
                    self.leader_hint
                },
            },
            ..self
        }
    }

    /// The sequence that the next new mutation of a partition gets.
    pub open spec fn next_sequence(self, partition: u16) -> Sequence {
        match value_of(self.next_seq, partition as u64) {
            Some(s) => s,
            None => 1,
        }
    }

    /// The sequence of a mutation with the client that holds it as pending, or
    /// the refusal while another one is unresolved.
    pub open spec fn reserved(self, partition: u16, op: DataOpView) -> Result<
        (Sequence, ClientView),
        ErrorView,
    > {
        match get(self.pending, partition) {
            Some(existing) => if existing.op == op {
                Ok((existing.sequence, self))
            } else {
                Err(
                    ErrorView::Raft(
                        "mutation sequence "@ + decimal(existing.sequence as nat)
                            + " for partition "@ + decimal(partition as nat)
                            + " is unresolved; retry that operation first"@,
                    ),
                )
            },
            None => {
                let sequence = self.next_sequence(partition);
                Ok(
                    (
                        sequence,
                        ClientView {
                            next_seq: self.next_seq.insert(partition as u64, sequence),
                            pending: put(self.pending, partition, PendingView { sequence, op }),
                            ..self
                        },
                    ),
                )
            },
        }
    }

    /// The client after a sequence was decided: its stream moves past it, never
    /// back.
    pub open spec fn decided(self, partition: u16, sequence: Sequence) -> ClientView {
        let next = self.next_sequence(partition);
        ClientView {
            next_seq: self.next_seq.insert(
                partition as u64,
                if next <= sequence {
                    (sequence + 1) as u64
                } else {
                    next
                },
            ),
            ..self
        }
    }

    /// The client without its pending mutation of a partition.
    pub open spec fn released(self, partition: u16) -> ClientView {
        ClientView { pending: del(self.pending, partition), ..self }
    }

    /// The client after the reply to a mutation.
    pub open spec fn after_mutation(self, partition: u16, sequence: Sequence, reply: ClientReplyView) -> ClientView {
        match reply {
            ClientReplyView::Mutation(_) => self.decided(partition, sequence).released(partition),
            ClientReplyView::Refused(_) => self.released(partition),
            _ => self,
        }
    }

    /// The client after a new routing snapshot: hints that it accounts for are
    /// dropped.
    pub open spec fn refreshed(self, info: RoutingView) -> ClientView {
        ClientView { routing: Some(info), hints: live_hints(self.hints, info), ..self }
    }
}

/// Whether a hint is still news beside a routing snapshot.
pub open spec fn still_news(e: (u16, HintsView), info: RoutingView) -> bool {
    match info.placement(e.0) {
        Some(p) => !e.1.subsumed_by(p.voters_log_id),
        None => true,
    }
}

/// The hints that a routing snapshot does not account for.
pub open spec fn live_hints(hints: Seq<(u16, HintsView)>, info: RoutingView) -> Seq<
    (u16, HintsView),
>
    decreases hints.len(),
{
    if hints.len() == 0 {
        Seq::empty()
    } else if still_news(hints.last(), info) {
        live_hints(hints.drop_last(), info).push(hints.last())
    } else {
        live_hints(hints.drop_last(), info)
    }
}

/// What a mutation's reply means to the caller.
pub open spec fn mutation_outcome(reply: ClientReplyView) -> Result<WriteReply, ErrorView> {
    match reply {
        ClientReplyView::Mutation(w) => Ok(w),
        ClientReplyView::Refused(e) => Err(ErrorView::Raft("write refused: "@ + e)),
        ClientReplyView::Error(e) => Err(ErrorView::Raft("write rejected: "@ + e)),
        other => Err(ErrorView::Raft("unexpected write reply: "@ + other.spec_label())),
    }
}

/// What a read's reply means to the caller.
pub open spec fn read_outcome(reply: ClientReplyView) -> Result<
    Option<(Version, Seq<u8>)>,
    ErrorView,
> {
    match reply {
        ClientReplyView::Value(v) => Ok(v),
        ClientReplyView::Refused(e) => Err(ErrorView::Raft("read refused: "@ + e)),
        ClientReplyView::Error(e) => Err(ErrorView::Raft("read rejected: "@ + e)),
        other => Err(ErrorView::Raft("unexpected read reply: "@ + other.spec_label())),
    }
}

fn same_condition(a: Option<IfVersion>, b: Option<IfVersion>) -> (same: bool)
    ensures
        same == (a == b),
{
    match (a, b) {
        (None, None) => true,
        (Some(x), Some(y)) => x == y,
        _ => false,
    }
}

fn same_op(a: &DataOp, b: &DataOp) -> (same: bool)
    ensures
        same == (a@ == b@),
{
    match (a, b) {
        (
            DataOp::Put { key: k, value: v, if_version: c },
            DataOp::Put { key: l, value: w, if_version: d },
        ) => same_bytes(k, l) && same_bytes(v, w) && same_condition(*c, *d),
        (DataOp::Delete { key: k, if_version: c }, DataOp::Delete { key: l, if_version: d }) => {
            same_bytes(k, l) && same_condition(*c, *d)
        },
        _ => false,
    }
}

/// The order in which a read's candidates are tried. A linearizable read needs
/// the leader; a stale one spreads, but leads with the leader if it has a version
/// to reach.
pub fn route_order(consistency: Consistency) -> (order: RouteOrder)
    ensures
        order == match consistency {
            Consistency::Linearizable => RouteOrder::LeaderFirst,
            Consistency::Stale { min_version } => RouteOrder::Spread {
                prefer_hint: min_version is Some,
            },
        },
{
    match consistency {
        Consistency::Linearizable => RouteOrder::LeaderFirst,
        Consistency::Stale { min_version } => RouteOrder::Spread {
            prefer_hint: min_version.is_some(),
        },
    }
}

fn rotate(list: &Vec<NodeId>, shift: usize) -> (out: Vec<NodeId>)
    requires
        shift <= list@.len(),
    ensures
        out@ == rotated(list@, shift as int),
{
    let mut out: Vec<NodeId> = Vec::new();
    let mut i: usize = shift;
    while i < list.len()
        invariant
            shift <= i <= list@.len(),
            out@ == list@.skip(shift as int).take(i - shift),
        decreases list@.len() - i,
    {
        out.push(list[i]);
        assert(out@ =~= list@.skip(shift as int).take(i + 1 - shift));
        i += 1;
    }
    assert(out@ =~= list@.skip(shift as int));
    let mut j: usize = 0;
    while j < shift
        invariant
            j <= shift <= list@.len(),
            out@ == list@.skip(shift as int) + list@.take(j as int),
        decreases shift - j,
    {
        out.push(list[j]);
        assert(out@ =~= list@.skip(shift as int) + list@.take(j + 1));
        j += 1;
    }
    out
}

impl Client {
    pub closed spec fn valid(&self) -> bool {
        &&& self.leader_hint.valid()
        &&& self.next_seq.valid()
        &&& keys_distinct(self@.hints)
        &&& keys_distinct(self@.pending)
    }

    pub fn new(cluster_id: ClusterId, client_id: ClientId) -> (c: Client)
        ensures
            c.valid(),
            c@ == (ClientView {
                cluster_id,
                client_id,
                routing: None,
                leader_hint: Map::empty(),
                hints: Seq::empty(),
                next_seq: Map::empty(),
                pending: Seq::empty(),
                request_id: 1,
                rotation: 0,
            }),
    {
        let c = Client {
            cluster_id,
            client_id,
            routing: None,
            leader_hint: NodeTable::new(),
            redirect_candidates: Vec::new(),
            next_seq: NodeTable::new(),
            pending: Vec::new(),
            request_id: 1,
            rotation: 0,
        };
        assert(c@.hints =~= Seq::<(u16, HintsView)>::empty());
        assert(c@.pending =~= Seq::<(u16, PendingView)>::empty());
        c
    }

    /// The cluster that the client belongs to.
    pub fn cluster(&self) -> (id: ClusterId)
        ensures
            id == self@.cluster_id,
    {
        self.cluster_id
    }

    /// A number for the next request.
    pub fn next_request_id(&mut self) -> (id: u64)
        requires
            old(self).valid(),
        ensures
            final(self).valid(),
            id == old(self)@.request_id,
            final(self)@ == (ClientView {
                request_id: next_number(old(self)@.request_id),
                ..old(self)@
            }),
    {
        let id: u64 = self.request_id;
        self.request_id = id.wrapping_add(1);
        id
    }

    /// Note who leads a partition.
    pub fn set_leader_hint(&mut self, partition: u16, leader: NodeId)
        requires
            old(self).valid(),
        ensures
            final(self).valid(),
            final(self)@ == (ClientView {
                leader_hint: old(self)@.leader_hint.insert(partition as u64, leader),
                ..old(self)@
            }),
    {
        self.leader_hint.insert(partition as u64, leader);
    }

    /// The partition count and hash of the cluster, once a snapshot is known.
    pub fn routing_params(&self) -> (r: Option<(u16, HashSpec)>)
        ensures
            r == match self@.routing {
                Some(info) => Some((info.p, info.hash_spec)),
                None => None,
            },
    {
        match &self.routing {
            Some(info) => Some((info.p, info.hash_spec)),
            None => None,
        }
    }

    /// The partition of a key, once a snapshot with partitions is known.
    pub fn partition_of(&self, key: &[u8]) -> (r: Option<u16>)
        ensures
            r == match self@.routing {
                Some(info) => if info.p > 0 {
                    Some(partition_of_key(info.hash_spec, key@, info.p))
                } else {
                    None
                },
                None => None,
            },
    {
        match &self.routing {
            Some(info) => {
                if info.p > 0 {
                    Some(info.hash_spec.partition_of(key, info.p))
                } else {
                    None
                }
            },
            None => None,
        }
    }

    fn find_hints(&self, partition: u16) -> (i: usize)
        ensures
            i == slot(self@.hints, partition),
            i <= self.redirect_candidates@.len(),
    {
        let mut i: usize = 0;
        while i < self.redirect_candidates.len() && self.redirect_candidates[i].0 != partition
            invariant
                i <= self.redirect_candidates@.len(),
                forall|j: int| 0 <= j < i ==> (#[trigger] self@.hints[j]).0 != partition,
            decreases self.redirect_candidates@.len() - i,
        {
            i += 1;
        }
        proof {
            lemma_slot_is(self@.hints, partition, i as int);
        }
        i
    }

    fn find_pending(&self, partition: u16) -> (i: usize)
        ensures
            i == slot(self@.pending, partition),
            i <= self.pending@.len(),
    {
        let mut i: usize = 0;
        while i < self.pending.len() && self.pending[i].0 != partition
            invariant
                i <= self.pending@.len(),
                forall|j: int| 0 <= j < i ==> (#[trigger] self@.pending[j]).0 != partition,
            decreases self.pending@.len() - i,
        {
            i += 1;
        }
        proof {
            lemma_slot_is(self@.pending, partition, i as int);
        }
        i
    }

    fn redirected(&self, partition: u16) -> (out: Vec<NodeId>)
        ensures
            out@ == self@.redirected(partition),
    {
        let i: usize = self.find_hints(partition);
        proof {
            lemma_slot(self@.hints, partition);
        }
        if i < self.redirect_candidates.len() {
            self.redirect_candidates[i].1.candidates.clone()
        } else {
            Vec::new()
        }
    }

    /// The candidates of a partition in the order in which they are tried.
    pub fn candidate_nodes(&mut self, partition: u16, order: RouteOrder) -> (out: Vec<NodeId>)
        requires
            old(self).valid(),
        ensures
            final(self).valid(),
            out@ == old(self)@.ordered(partition, order),
            final(self)@ == old(self)@.after_ordering(partition, order),
    {
        let ghost before = self@;
        let lead: bool = match order {
            RouteOrder::LeaderFirst => true,
            RouteOrder::Spread { prefer_hint } => prefer_hint,
        };
        let hint: Option<NodeId> = self.leader_hint.lookup(partition as u64);
        let taught = self.redirected(partition);
        let mut known: Vec<NodeId>;
        match &self.routing {
            None => {
                known = taught;
                proof {
                    assert(rotated(known@, 0) =~= known@);
                }
                if lead {
                    if let Some(h) = hint {
                        if !crate::sets::holds(&known, h) {
                            let ghost rest = known@;
                            known.insert(0, h);
                            assert(known@ =~= seq![h] + rest);
                        }
                    }
                }
                return known;
            },
            Some(info) => {
                known = info.candidates(partition);
                merge_ids(&mut known, &taught);
            },
        }
        let spread: bool = match order {
            RouteOrder::LeaderFirst => false,
            RouteOrder::Spread { .. } => true,
        };
        let mut shift: usize = 0;
        if spread && known.len() > 0 {
            shift = (self.rotation % (known.len() as u64)) as usize;
            self.rotation = self.rotation.wrapping_add(1);
        }
        let rest = rotate(&known, shift);
        let mut out: Vec<NodeId> = Vec::new();
        if lead {
            if let Some(h) = hint {
                out.push(h);
                assert(out@ =~= seq![h]);
            }
        }
        assert(out@.len() == 0 ==> out@ =~= Seq::<NodeId>::empty());
        merge_ids(&mut out, &rest);
        out
    }

    /// Where a node listens, if the snapshot knows it.
    pub fn resolve_addr(&self, node: NodeId) -> (r: Option<String>)
        ensures
            match r {
                Some(addr) => self@.routing matches Some(info) && info.control_addr(node) == Some(
                    addr@,
                ),
                None => self@.routing is None || self@.routing->0.control_addr(node) is None,
            },
    {
        match &self.routing {
            Some(info) => match info.control_addr(node) {
                Some(addr) => Some(addr.to_owned()),
                None => None,
            },
            None => None,
        }
    }

    /// Take in a redirect: note the leader it names, and the candidates that are
    /// new. A node that does not lead and names no leader is no longer preferred.
    pub fn apply_redirect(&mut self, partition: u16, from: NodeId, r: &Redirect)
        requires
            old(self).valid(),
        ensures
            final(self).valid(),
            final(self)@ == old(self)@.after_redirect(partition, from, r@),
    {
        let ghost before = self@;
        let learned_at: Option<LogId> = match &self.routing {
            Some(info) => info.placement_log_id(partition),
            None => None,
        };
        let mut candidates = self.redirected(partition);
        merge_ids(&mut candidates, &r.candidates);
        let i: usize = self.find_hints(partition);
        let hints = RedirectHints { learned_at, candidates };
        let ghost view = hints@;
        if i < self.redirect_candidates.len() {
            self.redirect_candidates.set(i, (partition, hints));
        } else {
            self.redirect_candidates.push((partition, hints));
        }
        proof {
            assert(self@.hints =~= put(before.hints, partition, view));
            lemma_put(before.hints, partition, view);
        }
        match r.leader {
            Some(leader) => {
                self.leader_hint.insert(partition as u64, leader);
            },
            None => {
                if let Some(hint) = self.leader_hint.lookup(partition as u64) {
                    if hint == from {
                        self.leader_hint.remove(partition as u64);
                    }
                }
            },
        }
        assert(self@ =~= before.after_redirect(partition, from, r@));
    }

    /// Whether a reply can be a routing snapshot for this client.
    pub fn answers_routing(&self, reply: &Envelope) -> (yes: bool)
        ensures
            yes == (reply.cluster_id == self@.cluster_id && reply.msg_type is MetaQuery),
    {
        reply.cluster_id == self.cluster_id && reply.msg_type == MsgType::MetaQuery
    }

    /// Take in a routing snapshot. Hints older than its placements are dropped,
    /// so that a node that has left is not tried for ever.
    pub fn refresh_routing(&mut self, info: RoutingInfo)
        requires
            old(self).valid(),
        ensures
            final(self).valid(),
            final(self)@ == old(self)@.refreshed(info@),
    {
        let ghost before = self@;
        let mut kept: Vec<(u16, RedirectHints)> = Vec::new();
        let mut i: usize = 0;
        let ghost view = |e: (u16, RedirectHints)| (e.0, e.1@);
        proof {
            assert(before.hints.take(0) =~= Seq::<(u16, HintsView)>::empty());
            assert(kept@.map_values(view) =~= Seq::<(u16, HintsView)>::empty());
        }
        while i < self.redirect_candidates.len()
            invariant
                i <= self.redirect_candidates@.len(),
                before == self@,
                view == (|e: (u16, RedirectHints)| (e.0, e.1@)),
                before.hints == self.redirect_candidates@.map_values(
                    |e: (u16, RedirectHints)| (e.0, e.1@),
                ),
                kept@.map_values(view) == live_hints(before.hints.take(i as int), info@),
            decreases self.redirect_candidates@.len() - i,
        {
            let entry = &self.redirect_candidates[i];
            proof {
                assert(before.hints[i as int] == (entry.0, entry.1@));
                assert(before.hints.take(i + 1).drop_last() =~= before.hints.take(i as int));
                assert(before.hints.take(i + 1).last() == before.hints[i as int]);
            }
            let news: bool = match info.placement_log_id(entry.0) {
                Some(log_id) => match entry.1.learned_at {
                    Some(learned) => !(log_id.term > learned.term || (log_id.term == learned.term
                        && log_id.index > learned.index)),
                    None => false,
                },
                None => true,
            };
            if news {
                let ghost so_far = kept@;
                let copy = RedirectHints {
                    learned_at: entry.1.learned_at,
                    candidates: entry.1.candidates.clone(),
                };
                assert(copy@ =~= entry.1@);
                kept.push((entry.0, copy));
                assert(kept@.map_values(view) =~= so_far.map_values(view).push(
                    before.hints[i as int],
                ));
            }
            i += 1;
        }
        proof {
            assert(before.hints.take(i as int) =~= before.hints);
            lemma_live_distinct(before.hints, info@);
        }
        self.redirect_candidates = kept;
        self.routing = Some(info);
        assert(self@ =~= before.refreshed(info@));
    }

    /// The sequence for a mutation. An unresolved one keeps its sequence, and may
    /// only be retried with the same operation.
    pub fn pending_sequence(&mut self, partition: u16, op: &DataOp) -> (r: Result<Sequence, Error>)
        requires
            old(self).valid(),
        ensures
            final(self).valid(),
            match r {
                Ok(sequence) => old(self)@.reserved(partition, op@) == Ok::<
                    (Sequence, ClientView),
                    ErrorView,
                >((sequence, final(self)@)),
                Err(e) => old(self)@.reserved(partition, op@) == Err::<
                    (Sequence, ClientView),
                    ErrorView,
                >(e@) && final(self)@ == old(self)@,
            },
    {
        let ghost before = self@;
        let i: usize = self.find_pending(partition);
        proof {
            lemma_slot(self@.pending, partition);
        }
        if i < self.pending.len() {
            let existing = &self.pending[i].1;
            if same_op(&existing.op, op) {
                return Ok(existing.sequence);
            }
            let mut s = prefixed(
                "mutation sequence ",
                to_decimal(existing.sequence as u128).as_str(),
            );
            s.append(" for partition ");
            s.append(to_decimal(partition as u128).as_str());
            s.append(" is unresolved; retry that operation first");
            return Err(Error::Raft(s));
        }
        let sequence: Sequence = match self.next_seq.lookup(partition as u64) {
            Some(next) => next,
            None => 1,
        };
        self.next_seq.insert(partition as u64, sequence);
        let entry = PendingMutation { sequence, op: op.duplicate() };
        let ghost view = entry@;
        self.pending.push((partition, entry));
        proof {
            assert(self@.pending =~= put(before.pending, partition, view));
            lemma_put(before.pending, partition, view);
            assert(self@ =~= before.reserved(partition, op@)->Ok_0.1);
        }
        Ok(sequence)
    }

    /// The request that carries a mutation under its sequence.
    pub fn mutation_request(&self, sequence: Sequence, op: &DataOp) -> (r: DataRequest)
        ensures
            r@ == (DataRequestView { client_id: self@.client_id, sequence, op: op@ }),
    {
        DataRequest { client_id: self.client_id, sequence, op: op.duplicate() }
    }

    /// Resolve a mutation by its reply. A decided one moves the stream on; a
    /// refused one was never proposed, so its sequence is free again; after an
    /// error it stays pending, since it may have committed.
    pub fn finish_mutation(&mut self, partition: u16, sequence: Sequence, reply: &ClientReply) -> (r:
        Result<WriteReply, Error>)
        requires
            old(self).valid(),
            sequence < u64::MAX,
        ensures
            final(self).valid(),
            final(self)@ == old(self)@.after_mutation(partition, sequence, reply@),
            match (r, mutation_outcome(reply@)) {
                (Ok(a), Ok(b)) => a == b,
                (Err(e), Err(f)) => e@ == f,
                _ => false,
            },
    {
        match reply {
            ClientReply::Mutation(w) => {
                let next: Sequence = match self.next_seq.lookup(partition as u64) {
                    Some(next) => next,
                    None => 1,
                };
                let advanced: Sequence = if next <= sequence {
                    sequence + 1
                } else {
                    next
                };
                self.next_seq.insert(partition as u64, advanced);
                self.release(partition);
                Ok(*w)
            },
            ClientReply::Refused(e) => {
                self.release(partition);
                Err(Error::Raft(prefixed("write refused: ", e.as_str())))
            },
            ClientReply::Error(e) => Err(Error::Raft(prefixed("write rejected: ", e.as_str()))),
            other => Err(
                Error::Raft(prefixed("unexpected write reply: ", other.label().as_str())),
            ),
        }
    }

    fn release(&mut self, partition: u16)
        requires
            old(self).valid(),
        ensures
            final(self).valid(),
            final(self)@ == old(self)@.released(partition),
    {
        let ghost before = self@;
        let i: usize = self.find_pending(partition);
        if i < self.pending.len() {
            self.pending.remove(i);
        }
        proof {
            assert(self@.pending =~= del(before.pending, partition));
            lemma_del(before.pending, partition);
            assert(self@ =~= before.released(partition));
        }
    }
}

/// The value of a read, or why there is none.
pub fn finish_read(reply: ClientReply) -> (r: Result<Option<(Version, Vec<u8>)>, Error>)
    ensures
        match (r, read_outcome(reply@)) {
            (Ok(a), Ok(b)) => crate::api::ops::value_view(a) == b,
            (Err(e), Err(f)) => e@ == f,
            _ => false,
        },
{
    match reply {
        ClientReply::Value(v) => Ok(v),
        ClientReply::Refused(e) => Err(Error::Raft(prefixed("read refused: ", e.as_str()))),
        ClientReply::Error(e) => Err(Error::Raft(prefixed("read rejected: ", e.as_str()))),
        ClientReply::Mutation(w) => Err(
            Error::Raft(
                prefixed(
                    "unexpected read reply: ",
                    ClientReply::Mutation(w).label().as_str(),
                ),
            ),
        ),
        ClientReply::Redirect(r) => Err(
            Error::Raft(
                prefixed(
                    "unexpected read reply: ",
                    ClientReply::Redirect(r).label().as_str(),
                ),
            ),
        ),
    }
}

proof fn lemma_live_distinct(hints: Seq<(u16, HintsView)>, info: RoutingView)
    requires
        keys_distinct(hints),
    ensures
        keys_distinct(live_hints(hints, info)),
        forall|i: int|
            0 <= i < live_hints(hints, info).len() ==> exists|j: int|
                0 <= j < hints.len() && hints[j] == #[trigger] live_hints(hints, info)[i],
    decreases hints.len(),
{
    if hints.len() > 0 {
        let head = hints.drop_last();
        assert(keys_distinct(head)) by {
            assert forall|i: int, j: int| 0 <= i < j < head.len() implies #[trigger] head[i].0
                != #[trigger] head[j].0 by {
                assert(hints[i].0 != hints[j].0);
            }
        }
        lemma_live_distinct(head, info);
        let inner = live_hints(head, info);
        let out = live_hints(hints, info);
        assert forall|i: int| 0 <= i < out.len() implies exists|j: int|
            0 <= j < hints.len() && hints[j] == #[trigger] out[i] by {
            if i < inner.len() {
                assert(out[i] == inner[i]);
                let j = choose|j: int| 0 <= j < head.len() && head[j] == inner[i];
                assert(hints[j] == out[i]);
            } else {
                assert(hints[hints.len() - 1] == out[i]);
            }
        }
        assert forall|i: int, j: int| 0 <= i < j < out.len() implies #[trigger] out[i].0
            != #[trigger] out[j].0 by {
            if j < inner.len() {
                assert(inner[i].0 != inner[j].0);
            } else {
                let k = choose|k: int| 0 <= k < head.len() && head[k] == inner[i];
                assert(hints[k].0 != hints[hints.len() - 1].0);
            }
        }
    }
}

// -- laws --------------------------------------------------------------------

/// A mutation keeps its sequence while it is unresolved: the same operation gets
/// it again, any other one is refused, and neither changes the client.
pub proof fn law_retries_keep_their_sequence(
    c: ClientView,
    partition: u16,
    op: DataOpView,
    sequence: Sequence,
    d: ClientView,
    other: DataOpView,
)
    requires
        c.reserved(partition, op) == Ok::<(Sequence, ClientView), ErrorView>((sequence, d)),
    ensures
        d.reserved(partition, op) == Ok::<(Sequence, ClientView), ErrorView>((sequence, d)),
        other != op ==> d.reserved(partition, other) is Err,
{
    lemma_put(c.pending, partition, PendingView { sequence, op });
}

/// Once a mutation is decided, the next one gets the sequence after it.
pub proof fn law_decided_sequences_advance(
    c: ClientView,
    partition: u16,
    op: DataOpView,
    sequence: Sequence,
    d: ClientView,
    w: WriteReply,
    next_op: DataOpView,
)
    requires
        keys_distinct(c.pending),
        get(c.pending, partition) is None,
        c.reserved(partition, op) == Ok::<(Sequence, ClientView), ErrorView>((sequence, d)),
        sequence < u64::MAX,
    ensures
        ({
            let e = d.after_mutation(partition, sequence, ClientReplyView::Mutation(w));
            e.reserved(partition, next_op) matches Ok((next, _)) && next == sequence + 1
        }),
{
    lemma_put(c.pending, partition, PendingView { sequence, op });
    lemma_del(d.pending, partition);
}

/// A refused mutation frees its sequence for the next one; one that ended in an
/// error does not.
pub proof fn law_refused_sequences_are_free(
    c: ClientView,
    partition: u16,
    op: DataOpView,
    sequence: Sequence,
    d: ClientView,
    text: Seq<char>,
    next_op: DataOpView,
)
    requires
        keys_distinct(c.pending),
        get(c.pending, partition) is None,
        c.reserved(partition, op) == Ok::<(Sequence, ClientView), ErrorView>((sequence, d)),
    ensures
        ({
            let e = d.after_mutation(partition, sequence, ClientReplyView::Refused(text));
            e.reserved(partition, next_op) matches Ok((next, _)) && next == sequence
        }),
        ({
            let e = d.after_mutation(partition, sequence, ClientReplyView::Error(text));
            next_op != op ==> e.reserved(partition, next_op) is Err
        }),
{
    lemma_put(c.pending, partition, PendingView { sequence, op });
    lemma_del(d.pending, partition);
}

/// The streams of other partitions are left alone.
pub proof fn law_streams_are_independent(
    c: ClientView,
    partition: u16,
    op: DataOpView,
    sequence: Sequence,
    d: ClientView,
    other: u16,
)
    requires
        c.reserved(partition, op) == Ok::<(Sequence, ClientView), ErrorView>((sequence, d)),
        other != partition,
    ensures
        d.next_sequence(other) == c.next_sequence(other),
        get(d.pending, other) == get(c.pending, other),
{
    lemma_put(c.pending, partition, PendingView { sequence, op });
}

proof fn lemma_rotated_members(s: Seq<NodeId>, shift: int)
    requires
        0 <= shift <= s.len(),
    ensures
        forall|x: NodeId| #[trigger] rotated(s, shift).contains(x) <==> s.contains(x),
        s.no_duplicates() ==> rotated(s, shift).no_duplicates(),
{
    let r = rotated(s, shift);
    assert forall|x: NodeId| #[trigger] r.contains(x) <==> s.contains(x) by {
        if s.contains(x) {
            let k = s.index_of(x);
            if k < shift {
                assert(r[s.len() - shift + k] == x);
            } else {
                assert(r[k - shift] == x);
            }
        }
        if r.contains(x) {
            let k = r.index_of(x);
            if k < s.len() - shift {
                assert(s[k + shift] == x);
            } else {
                assert(s[k - (s.len() - shift)] == x);
            }
        }
    }
}

/// With a routing snapshot the candidates of a round are each known node once,
/// in whatever order they are tried, and the known leader if it goes first: no
/// replica is left out of a round.
pub proof fn law_rounds_cover_every_candidate(c: ClientView, partition: u16, order: RouteOrder)
    requires
        c.routing is Some,
    ensures
        c.ordered(partition, order).no_duplicates(),
        forall|x: NodeId|
            c.known(partition).contains(x) ==> #[trigger] c.ordered(partition, order).contains(x),
        forall|x: NodeId| #[trigger]
            c.ordered(partition, order).contains(x) ==> c.known(partition).contains(x) || c.hint(
                partition,
            ) == Some(x),
{
    let known = c.known(partition);
    let shift = c.shift(partition, order);
    lemma_rotated_members(known, shift);
    let rest = rotated(known, shift);
    lemma_merged(Seq::empty(), rest);
    match c.hint(partition) {
        Some(h) => {
            lemma_merged(seq![h], rest);
            assert forall|x: NodeId| seq![h].contains(x) <==> x == h by {
                if x == h {
                    assert(seq![h][0] == x);
                }
            }
        },
        None => {},
    }
    assert forall|x: NodeId| !Seq::<NodeId>::empty().contains(x) by {
    }
    let out = c.ordered(partition, order);
    assert forall|x: NodeId| known.contains(x) implies #[trigger] out.contains(x) by {
        assert(rest.contains(x));
    }
    assert forall|x: NodeId| #[trigger] out.contains(x) implies known.contains(x) || c.hint(
        partition,
    ) == Some(x) by {
        assert(rest.contains(x) <==> known.contains(x));
    }
}

/// The known leader goes first where the order asks for it.
pub proof fn law_leader_goes_first(c: ClientView, partition: u16, order: RouteOrder, leader: NodeId)
    requires
        c.routing is Some,
        c.hint(partition) == Some(leader),
        order is LeaderFirst || order == (RouteOrder::Spread { prefer_hint: true }),
    ensures
        c.ordered(partition, order).len() > 0,
        c.ordered(partition, order)[0] == leader,
{
    let rest = rotated(c.known(partition), c.shift(partition, order));
    let lead = seq![leader];
    lemma_merged(lead, rest);
    assert(merged(lead, rest).take(1)[0] == leader);
}

/// A snapshot retires what older redirects taught, and keeps what newer ones
/// did.
pub proof fn law_newer_snapshots_retire_hints(hints: Seq<(u16, HintsView)>, info: RoutingView, i: int)
    requires
        0 <= i < hints.len(),
        keys_distinct(hints),
    ensures
        get(live_hints(hints, info), hints[i].0) == if still_news(hints[i], info) {
            Some(hints[i].1)
        } else {
            None
        },
    decreases hints.len(),
{
    let head = hints.drop_last();
    let last = hints.last();
    assert(keys_distinct(head)) by {
        assert forall|a: int, b: int| 0 <= a < b < head.len() implies #[trigger] head[a].0
            != #[trigger] head[b].0 by {
            assert(hints[a].0 != hints[b].0);
        }
    }
    lemma_live_distinct(head, info);
    let inner = live_hints(head, info);
    let out = live_hints(hints, info);
    let k = hints[i].0;
    if i < head.len() {
        law_newer_snapshots_retire_hints(head, info, i);
        assert(head[i] == hints[i]);
        assert(last.0 != k) by {
            assert(hints[i].0 != hints[hints.len() - 1].0);
        }
        lemma_get_push(inner, last, k);
    } else {
        lemma_slot(inner, k);
        assert(get(inner, k) is None) by {
            if get(inner, k) is Some {
                let a = slot(inner, k);
                let b = choose|b: int| 0 <= b < head.len() && head[b] == inner[a];
                assert(hints[b].0 != hints[hints.len() - 1].0);
            }
        }
        lemma_get_push(inner, last, k);
    }
}

proof fn lemma_get_push(s: Seq<(u16, HintsView)>, e: (u16, HintsView), k: u16)
    ensures
        get(s.push(e), k) == if get(s, k) is Some {
            get(s, k)
        } else if e.0 == k {
            Some(e.1)
        } else {
            None
        },
{
    let t = s.push(e);
    lemma_slot(s, k);
    let n = slot(s, k);
    assert forall|j: int| 0 <= j < n implies (#[trigger] t[j]).0 != k by {
        assert(t[j] == s[j]);
    }
    if n < s.len() {
        assert(t[n] == s[n]);
        lemma_slot_is(t, k, n);
    } else if e.0 == k {
        assert(t[n] == e);
        lemma_slot_is(t, k, n);
    } else {
        assert(t[n] == e);
        lemma_slot_is(t, k, n + 1);
    }
}

/// A mutation takes its partition's next sequence, one for the first, and holds it
/// until it is resolved: the same operation gets the same sequence again with
/// nothing changed, and another operation of that partition gets none.
pub proof fn law_one_mutation_at_a_time(c: ClientView, partition: u16, op: DataOpView)
    ensures
        match get(c.pending, partition) {
            Some(open) => {
                &&& c.reserved(partition, op) is Ok <==> open.op == op
                &&& open.op == op ==> c.reserved(partition, op) == Ok::<
                    (Sequence, ClientView),
                    ErrorView,
                >((open.sequence, c))
            },
            None => c.reserved(partition, op) matches Ok((sequence, d)) && {
                &&& sequence == if c.next_seq.contains_key(partition as u64) {
                    c.next_seq[partition as u64]
                } else {
                    1
                }
                &&& get(d.pending, partition) == Some(PendingView { sequence, op })
                &&& d.next_seq.contains_key(partition as u64) && d.next_seq[partition as u64]
                    == sequence
                &&& d == (ClientView { next_seq: d.next_seq, pending: d.pending, ..c })
            },
        },
{
    let sequence = c.next_sequence(partition);
    lemma_put(c.pending, partition, PendingView { sequence, op });
}

/// A decided mutation, applied or not, frees its partition and moves its next
/// sequence past its own; a refused one frees it and may use its sequence again; any
/// other reply leaves the mutation open. No other partition is touched.
pub proof fn law_replies_resolve_mutations(
    c: ClientView,
    partition: u16,
    sequence: Sequence,
    reply: ClientReplyView,
    other: u16,
)
    requires
        keys_distinct(c.pending),
        sequence < u64::MAX,
        other != partition,
    ensures
        ({
            let d = c.after_mutation(partition, sequence, reply);
            let next = if c.next_seq.contains_key(partition as u64) {
                c.next_seq[partition as u64]
            } else {
                1u64
            };
            &&& d.pending == c.pending && d == c || get(d.pending, partition) is None
            &&& get(d.pending, partition) is None <==> reply is Mutation || reply is Refused || get(
                c.pending,
                partition,
            ) is None
            &&& reply is Mutation ==> d.next_seq.contains_key(partition as u64)
                && d.next_seq[partition as u64] == if next > sequence {
                next as int
            } else {
                sequence + 1
            }
            &&& !(reply is Mutation) ==> d.next_seq == c.next_seq
            &&& get(d.pending, other) == get(c.pending, other)
            &&& value_of(d.next_seq, other as u64) == value_of(c.next_seq, other as u64)
            &&& d == (ClientView { next_seq: d.next_seq, pending: d.pending, ..c })
        }),
{
    lemma_del(c.pending, partition);
}

/// A write is told its result exactly when the reply is one to a mutation, and a
/// read its value exactly when the reply is a value.
pub proof fn law_outcomes_are_the_replies(
    reply: ClientReplyView,
    w: WriteReply,
    v: Option<(Version, Seq<u8>)>,
)
    ensures
        mutation_outcome(reply) == Ok::<WriteReply, ErrorView>(w) <==> reply
            == ClientReplyView::Mutation(w),
        mutation_outcome(reply) is Ok <==> reply is Mutation,
        read_outcome(reply) == Ok::<Option<(Version, Seq<u8>)>, ErrorView>(v) <==> reply
            == ClientReplyView::Value(v),
        read_outcome(reply) is Ok <==> reply is Value,
{
}

/// A redirect that names a leader sets the partition's hint to it; one that names
/// none only takes back a hint at the node it came from. Its candidates join those
/// that earlier redirects gave. No other partition's hint or candidates change.
pub proof fn law_redirects_are_learned(
    c: ClientView,
    partition: u16,
    from: NodeId,
    r: RedirectView,
    x: NodeId,
    other: u16,
)
    requires
        other != partition,
    ensures
        ({
            let d = c.after_redirect(partition, from, r);
            &&& d.hint(partition) == match r.leader {
                Some(leader) => Some(leader),
                None => if c.hint(partition) == Some(from) {
                    None
                } else {
                    c.hint(partition)
                },
            }
            &&& d.redirected(partition).contains(x) <==> c.redirected(partition).contains(x)
                || r.candidates.contains(x)
            &&& get(d.hints, partition) matches Some(h) && h.learned_at == (match c.routing {
                Some(info) => match info.placement(partition) {
                    Some(p) => Some(p.voters_log_id),
                    None => None,
                },
                None => None,
            })
            &&& d.hint(other) == c.hint(other)
            &&& d.redirected(other) == c.redirected(other)
            &&& d == (ClientView { hints: d.hints, leader_hint: d.leader_hint, ..c })
        }),
{
    let d = c.after_redirect(partition, from, r);
    let h = get(d.hints, partition);
    lemma_merged(c.redirected(partition), r.candidates);
    let learned_at = match c.routing {
        Some(info) => match info.placement(partition) {
            Some(p) => Some(p.voters_log_id),
            None => None,
        },
        None => None,
    };
    lemma_put(
        c.hints,
        partition,
        HintsView { learned_at, candidates: merged(c.redirected(partition), r.candidates) },
    );
}

/// What redirects taught of a partition is kept over a new snapshot if and only if
/// the snapshot does not place the partition, or places it no later, by term and
/// then index, than what was known when they taught it.
pub proof fn law_hints_outlive_older_snapshots(e: (u16, HintsView), info: RoutingView)
    ensures
        still_news(e, info) <==> match info.placement(e.0) {
            None => true,
            Some(p) => match e.1.learned_at {
                None => false,
                Some(l) => p.voters_log_id.term < l.term || (p.voters_log_id.term == l.term
                    && p.voters_log_id.index <= l.index),
            },
        },
{
}

/// Reads that need no leader go round: a spread order begins with the known
/// candidate that the rotation points at, which then moves on by one.
pub proof fn law_spread_reads_rotate(c: ClientView, partition: u16)
    requires
        c.routing is Some,
        c.known(partition).len() > 0,
    ensures
        ({
            let order = RouteOrder::Spread { prefer_hint: false };
            let d = c.after_ordering(partition, order);
            &&& c.ordered(partition, order).len() > 0
            &&& c.ordered(partition, order)[0] == c.known(partition)[c.rotation as int % c.known(
                partition,
            ).len() as int]
            &&& d.rotation == if c.rotation < u64::MAX {
                c.rotation + 1
            } else {
                0
            }
            &&& d == (ClientView { rotation: d.rotation, ..c })
            &&& c.after_ordering(partition, RouteOrder::LeaderFirst) == c
        }),
{
    let order = RouteOrder::Spread { prefer_hint: false };
    let known = c.known(partition);
    let shift = c.shift(partition, order);
    assert(0 <= shift < known.len());
    let rest = rotated(known, shift);
    assert(rest[0] == known[shift]);
    lemma_merged_first(rest, rest.len() as int);
    assert(rest.take(rest.len() as int) =~= rest);
}

proof fn lemma_merged_first(rest: Seq<NodeId>, n: int)
    requires
        0 < n <= rest.len(),
    ensures
        merged(Seq::<NodeId>::empty(), rest.take(n)).len() > 0,
        merged(Seq::<NodeId>::empty(), rest.take(n))[0] == rest[0],
    decreases n,
{
    let more = rest.take(n);
    assert(more.drop_last() =~= rest.take(n - 1));
    if n == 1 {
        assert(merged(Seq::<NodeId>::empty(), rest.take(0)) =~= Seq::<NodeId>::empty());
        assert(more.last() == rest[0]);
    } else {
        lemma_merged_first(rest, n - 1);
    }
}

/// The nodes a client knows for a partition are those its routing snapshot gives and
/// those that redirects taught; a hinted leader is tried too where leaders go first.
pub proof fn law_known_candidates(c: ClientView, partition: u16, order: RouteOrder, x: NodeId)
    ensures
        c.known(partition).contains(x) <==> (c.routing is Some && c.routing->0.candidates(
            partition,
        ).contains(x)) || c.redirected(partition).contains(x),
        c.routing is None ==> (c.ordered(partition, order).contains(x) <==> c.known(
            partition,
        ).contains(x) || (c.hint(partition) == Some(x) && (order is LeaderFirst || order == (
        RouteOrder::Spread { prefer_hint: true })))),
{
    if let Some(info) = c.routing {
        lemma_merged(info.candidates(partition), c.redirected(partition));
    } else {
        let known = c.known(partition);
        assert(c.shift(partition, order) == 0);
        assert(rotated(known, 0) =~= known);
        let list = c.ordered(partition, order);
        if let Some(h) = c.hint(partition) {
            if list != known {
                assert(list == seq![h] + known);
                assert(list[0] == h);
                if known.contains(x) {
                    let k = known.index_of(x);
                    assert(list[k + 1] == x);
                }
                if list.contains(x) && x != h {
                    let k = list.index_of(x);
                    assert(known[k - 1] == x);
                }
            }
        }
    }
}

} // verus!
