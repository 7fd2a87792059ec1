//! Node-side search: how a coordinated search finds the leader of each partition
//! and reaches the same replica in both of its phases, and how the search indexes
//! of a node follow the catalog.
use crate::api::ops::{RoutingInfo, RoutingView, SearchShardReply};
use crate::assoc::{get, lemma_put, lemma_slot_is, put};
use crate::error::{Error, ErrorView};
use crate::meta::bootstrap::command_views;
use crate::meta::rebalancer::placement_view;
use crate::search::{record_views, RecordView, SearchIndexReady, SearchIndexRecord};
use crate::sets::{holds, lemma_without, without, without_id};
use crate::text::{decimal, prefixed, to_decimal};
use crate::transport::{Envelope, MsgType};
use crate::types::{
    ClusterId, LogId, MetaCommand, MetaCommandView, NodeId, Placement, PlacementView,
};
use crate::wire::{SearchIndexStatusReply, SubmitReply};
use vstd::prelude::*;

verus! {

/// How many times a phase looks for the leader of a partition.
pub const MAX_ROUNDS: usize = 3;

// -- finding the leader ------------------------------------------------------------

/// The replicas that could lead a partition, the hinted leader first.
pub open spec fn shard_candidates(
    routing: Option<RoutingView>,
    partition: u16,
    hint: Option<NodeId>,
) -> Seq<NodeId> {
    let known = match routing {
        Some(r) => r.candidates(partition),
        None => Seq::empty(),
    };
    match hint {
        Some(h) => seq![h] + without(known, h),
        None => known,
    }
}

/// List the replicas that could lead a partition.
pub fn candidates(routing: Option<&RoutingInfo>, partition: u16, hint: Option<NodeId>) -> (out: Vec<
    NodeId,
>)
    ensures
        out@ == shard_candidates(
            match routing {
                Some(r) => Some(r@),
                None => None,
            },
            partition,
            hint,
        ),
{
    let known: Vec<NodeId> = match routing {
        Some(r) => r.candidates(partition),
        None => Vec::new(),
    };
    match hint {
        Some(h) => {
            let mut out = without_id(&known, h);
            let ghost rest = out@;
            out.insert(0, h);
            assert(out@ =~= seq![h] + rest);
            out
        },
        None => {
            assert(known@ =~= shard_candidates(
                match routing {
                    Some(r) => Some(r@),
                    None => None,
                },
                partition,
                hint,
            ));
            known
        },
    }
}

/// Whether an envelope can be a shard's answer to a message.
pub fn shard_answers(cluster_id: ClusterId, msg_type: MsgType, reply: &Envelope) -> (yes: bool)
    ensures
        yes == (reply.cluster_id == cluster_id && reply.msg_type == msg_type),
{
    reply.cluster_id == cluster_id && reply.msg_type == msg_type
}

/// The search for a partition's leader.
pub struct ShardWalk {
    node: NodeId,
    rounds: usize,
    hint: Option<NodeId>,
    queue: Vec<NodeId>,
    redirected: bool,
}

/// The content of a search for a leader.
#[verifier::ext_equal]
pub struct WalkView {
    /// The node that searches, which it never asks over the network.
    pub node: NodeId,
    /// How many rounds have begun.
    pub rounds: nat,
    pub hint: Option<NodeId>,
    /// Whom to ask in this round, the next one first.
    pub queue: Seq<NodeId>,
    /// Whether this round ended with a hint at another leader.
    pub redirected: bool,
}

impl View for ShardWalk {
    type V = WalkView;

    closed spec fn view(&self) -> WalkView {
        WalkView {
            node: self.node,
            rounds: self.rounds as nat,
            hint: self.hint,
            queue: self.queue@,
            redirected: self.redirected,
        }
    }
}

/// The next node to ask, with the walk after it: this node is passed over.
pub open spec fn next_shard(w: WalkView) -> (Option<NodeId>, WalkView)
    decreases w.queue.len(),
{
    if w.queue.len() == 0 {
        (None, w)
    } else {
        let rest = WalkView { queue: w.queue.skip(1), ..w };
        if w.queue[0] == w.node {
            next_shard(rest)
        } else {
            (Some(w.queue[0]), rest)
        }
    }
}

/// The hint after the local replica named a leader: one that names this node
/// itself is no help.
pub open spec fn local_hint(w: WalkView, leader: Option<NodeId>) -> Option<NodeId> {
    match leader {
        Some(l) => if l != w.node {
            Some(l)
        } else {
            w.hint
        },
        None => w.hint,
    }
}

/// The walk after a candidate named a leader: one other than itself ends the
/// round.
pub open spec fn redirect(w: WalkView, candidate: NodeId, leader: Option<NodeId>) -> WalkView {
    match leader {
        Some(l) => if l != candidate {
            WalkView { hint: Some(l), queue: Seq::empty(), redirected: true, ..w }
        } else {
            w
        },
        None => w,
    }
}

/// Whether another round begins: the first one always does, and a later one only
/// after a hint, up to the bound.
pub open spec fn begins_round(w: WalkView) -> bool {
    w.rounds < MAX_ROUNDS && (w.rounds == 0 || w.redirected)
}

impl ShardWalk {
    pub fn new(node: NodeId) -> (w: ShardWalk)
        ensures
            w@ == (WalkView {
                node,
                rounds: 0,
                hint: None,
                queue: Seq::empty(),
                redirected: false,
            }),
    {
        let w = ShardWalk { node, rounds: 0, hint: None, queue: Vec::new(), redirected: false };
        assert(w@.queue =~= Seq::<NodeId>::empty());
        w
    }

    /// Begin another round, if there is one.
    pub fn begin_round(&mut self) -> (yes: bool)
        ensures
            yes == begins_round(old(self)@),
            final(self)@ == (if yes {
                WalkView { rounds: old(self)@.rounds + 1, redirected: false, ..old(self)@ }
            } else {
                old(self)@
            }),
    {
        if self.rounds < MAX_ROUNDS && (self.rounds == 0 || self.redirected) {
            self.rounds = self.rounds + 1;
            self.redirected = false;
            true
        } else {
            false
        }
    }

    /// Take in that the local replica does not lead.
    pub fn on_local(&mut self, leader: Option<NodeId>)
        ensures
            final(self)@ == (WalkView { hint: local_hint(old(self)@, leader), ..old(self)@ }),
    {
        if let Some(l) = leader {
            if l != self.node {
                self.hint = Some(l);
            }
        }
    }

    /// Set out to ask the candidates of this round.
    pub fn ask(&mut self, routing: Option<&RoutingInfo>, partition: u16)
        ensures
            final(self)@ == (WalkView {
                queue: shard_candidates(
                    match routing {
                        Some(r) => Some(r@),
                        None => None,
                    },
                    partition,
                    old(self)@.hint,
                ),
                ..old(self)@
            }),
    {
        self.queue = candidates(routing, partition, self.hint);
    }

    /// The next node to ask in this round.
    pub fn next(&mut self) -> (r: Option<NodeId>)
        ensures
            (r, final(self)@) == next_shard(old(self)@),
    {
        let ghost start = self@;
        loop
            invariant
                next_shard(self@) == next_shard(start),
                start == old(self)@,
            decreases self.queue@.len(),
        {
            if self.queue.len() == 0 {
                return None;
            }
            let ghost before = self@;
            let candidate: NodeId = self.queue.remove(0);
            assert(self@ =~= (WalkView { queue: before.queue.skip(1), ..before }));
            if candidate != self.node {
                return Some(candidate);
            }
        }
    }

    /// Take in that a candidate does not lead.
    pub fn on_not_leader(&mut self, candidate: NodeId, leader: Option<NodeId>)
        ensures
            final(self)@ == redirect(old(self)@, candidate, leader),
    {
        if let Some(l) = leader {
            if l != candidate {
                self.hint = Some(l);
                self.queue = Vec::new();
                self.redirected = true;
                assert(self@.queue =~= Seq::<NodeId>::empty());
            }
        }
    }
}

/// A replica's answer to a phase that only the leader serves; `T` is what the
/// phase gives.
pub enum ShardReply<T> {
    Served(T),
    NotLeader { leader: Option<NodeId> },
    Error(String),
}

/// What an answer settles, if it settles the search for the leader.
pub open spec fn settled<T>(reply: Option<ShardReply<T>>, r: Option<Result<T, Error>>) -> bool {
    match (reply, r) {
        (Some(ShardReply::Served(v)), Some(Ok(w))) => v == w,
        (Some(ShardReply::Error(text)), Some(Err(e))) => e@ == ErrorView::Search(text@),
        (Some(ShardReply::NotLeader { .. }), None) => true,
        (None, None) => true,
        _ => false,
    }
}

impl ShardWalk {
    /// Take in what the local replica answered: what it served or why it failed
    /// ends the search, and a leader that it names is asked first.
    pub fn on_local_reply<T>(&mut self, reply: ShardReply<T>) -> (r: Option<Result<T, Error>>)
        ensures
            settled(Some(reply), r),
            final(self)@ == match reply {
                ShardReply::NotLeader { leader } => WalkView {
                    hint: local_hint(old(self)@, leader),
                    ..old(self)@
                },
                _ => old(self)@,
            },
    {
        match reply {
            ShardReply::Served(v) => Some(Ok(v)),
            ShardReply::Error(text) => Some(Err(Error::Search(text))),
            ShardReply::NotLeader { leader } => {
                self.on_local(leader);
                None
            },
        }
    }

    /// Take in what a candidate answered; `None` stands for silence or an answer
    /// that cannot be read, and the next candidate is asked.
    pub fn on_shard_reply<T>(&mut self, candidate: NodeId, reply: Option<ShardReply<T>>) -> (r:
        Option<Result<T, Error>>)
        ensures
            settled(reply, r),
            final(self)@ == match reply {
                Some(ShardReply::NotLeader { leader }) => redirect(
                    old(self)@,
                    candidate,
                    leader,
                ),
                _ => old(self)@,
            },
    {
        match reply {
            None => None,
            Some(ShardReply::Served(v)) => Some(Ok(v)),
            Some(ShardReply::Error(text)) => Some(Err(Error::Search(text))),
            Some(ShardReply::NotLeader { leader }) => {
                self.on_not_leader(candidate, leader);
                None
            },
        }
    }
}

/// A shard's answer to a search without phases, as an answer that only the leader
/// serves: a redirect names the leader, and a refusal is an error.
pub fn search_reply<T>(reply: SearchShardReply<T>) -> (r: ShardReply<T>)
    ensures
        match reply {
            SearchShardReply::Result(v) => r == ShardReply::Served(v),
            SearchShardReply::Redirect(d) => r == (ShardReply::<T>::NotLeader { leader: d.leader }),
            SearchShardReply::Refused(text) => r == ShardReply::<T>::Error(text),
            SearchShardReply::Error(text) => r == ShardReply::<T>::Error(text),
        },
{
    match reply {
        SearchShardReply::Result(v) => ShardReply::Served(v),
        SearchShardReply::Redirect(d) => ShardReply::NotLeader { leader: d.leader },
        SearchShardReply::Refused(text) => ShardReply::Error(text),
        SearchShardReply::Error(text) => ShardReply::Error(text),
    }
}

/// That no replica prepared a search.
pub fn not_prepared(partition: u16) -> (e: Error)
    ensures
        e@ == ErrorView::Search(
            "no replica prepared a search on partition "@ + decimal(partition as nat),
        ),
{
    Error::Search(
        prefixed(
            "no replica prepared a search on partition ",
            to_decimal(partition as u128).as_str(),
        ),
    )
}

/// That no replica served a search.
pub fn not_served(partition: u16) -> (e: Error)
    ensures
        e@ == ErrorView::Search(
            "no replica served a search on partition "@ + decimal(partition as nat),
        ),
{
    Error::Search(
        prefixed(
            "no replica served a search on partition ",
            to_decimal(partition as u128).as_str(),
        ),
    )
}

// -- held sessions -----------------------------------------------------------------

/// Where a held session lives.
#[derive(Debug, Clone, Copy, PartialEq, Eq, Structural)]
pub enum SessionHost {
    Local,
    Remote(NodeId),
}

/// The held sessions of one search, by partition and session.
pub struct Sessions {
    held: Vec<((u16, u64), SessionHost)>,
}

impl View for Sessions {
    type V = Seq<((u16, u64), SessionHost)>;

    closed spec fn view(&self) -> Seq<((u16, u64), SessionHost)> {
        self.held@
    }
}

impl Sessions {
    pub fn new() -> (s: Sessions)
        ensures
            s@ == Seq::<((u16, u64), SessionHost)>::empty(),
    {
        Sessions { held: Vec::new() }
    }

    /// Remember where a session lives.
    pub fn remember(&mut self, partition: u16, session_id: u64, host: SessionHost)
        ensures
            final(self)@ == put(old(self)@, (partition, session_id), host),
    {
        let ghost before = self@;
        let mut i: usize = 0;
        while i < self.held.len() && (self.held[i].0.0 != partition || self.held[i].0.1
            != session_id)
            invariant
                i <= self.held@.len(),
                self.held@ == before,
                before == old(self)@,
                forall|j: int| 0 <= j < i ==> (#[trigger] before[j]).0 != (partition, session_id),
            decreases self.held@.len() - i,
        {
            i += 1;
        }
        proof {
            lemma_slot_is(before, (partition, session_id), i as int);
        }
        if i < self.held.len() {
            self.held.set(i, ((partition, session_id), host));
        } else {
            self.held.push(((partition, session_id), host));
        }
        assert(self@ =~= put(before, (partition, session_id), host));
    }

    /// Where a session lives, if it is held.
    pub fn host(&self, partition: u16, session_id: u64) -> (r: Option<SessionHost>)
        ensures
            r == get(self@, (partition, session_id)),
    {
        let mut i: usize = 0;
        while i < self.held.len() && (self.held[i].0.0 != partition || self.held[i].0.1
            != session_id)
            invariant
                i <= self.held@.len(),
                forall|j: int|
                    0 <= j < i ==> (#[trigger] self.held@[j]).0 != (partition, session_id),
            decreases self.held@.len() - i,
        {
            i += 1;
        }
        proof {
            lemma_slot_is(self@, (partition, session_id), i as int);
        }
        if i < self.held.len() {
            Some(self.held[i].1)
        } else {
            None
        }
    }

    /// The session that the second phase runs on, which the first must have
    /// prepared.
    pub fn execute_shard(&self, partition: u16, session_id: u64) -> (r: Result<SessionHost, Error>)
        ensures
            match (r, get(self@, (partition, session_id))) {
                (Ok(a), Some(b)) => a == b,
                (Err(e), None) => e@ == ErrorView::Search(
                    "no prepared session for partition "@ + decimal(partition as nat),
                ),
                _ => false,
            },
    {
        match self.host(partition, session_id) {
            Some(h) => Ok(h),
            None => Err(
                Error::Search(
                    prefixed(
                        "no prepared session for partition ",
                        to_decimal(partition as u128).as_str(),
                    ),
                ),
            ),
        }
    }
}

/// An answer to the second phase; `T` is the result of a search.
pub enum ShardExecuteReply<T> {
    Result(T),
    UnknownSession,
    Error(String),
}

/// What came back from a shard: nothing, something that cannot be read, or an
/// answer.
pub enum ShardAnswer<T> {
    Silent,
    Unreadable(String),
    Reply(ShardExecuteReply<T>),
}

/// The outcome of a shard's second phase. A session that was lost is an error of
/// the whole search: its statistics are part of every score.
pub fn shard_outcome<T>(partition: u16, answer: ShardAnswer<T>) -> (r: Result<T, Error>)
    ensures
        match answer {
            ShardAnswer::Reply(ShardExecuteReply::Result(v)) => r == Ok::<T, Error>(v),
            ShardAnswer::Reply(ShardExecuteReply::UnknownSession) => r matches Err(e) && e@
                == ErrorView::Search(
                "partition "@ + decimal(partition as nat) + " expired its held search session"@,
            ),
            ShardAnswer::Reply(ShardExecuteReply::Error(text)) => r matches Err(e) && e@
                == ErrorView::Search(text@),
            ShardAnswer::Silent => r matches Err(e) && e@ == ErrorView::Search(
                "partition "@ + decimal(partition as nat)
                    + " did not answer its prepared session"@,
            ),
            ShardAnswer::Unreadable(detail) => r matches Err(e) && e@ == ErrorView::Search(
                "malformed shard reply: "@ + detail@,
            ),
        },
{
    match answer {
        ShardAnswer::Reply(ShardExecuteReply::Result(v)) => Ok(v),
        ShardAnswer::Reply(ShardExecuteReply::UnknownSession) => {
            let mut s = prefixed("partition ", to_decimal(partition as u128).as_str());
            s.append(" expired its held search session");
            Err(Error::Search(s))
        },
        ShardAnswer::Reply(ShardExecuteReply::Error(text)) => Err(Error::Search(text)),
        ShardAnswer::Silent => {
            let mut s = prefixed("partition ", to_decimal(partition as u128).as_str());
            s.append(" did not answer its prepared session");
            Err(Error::Search(s))
        },
        ShardAnswer::Unreadable(detail) => Err(
            Error::Search(prefixed("malformed shard reply: ", detail.as_str())),
        ),
    }
}

// -- following the catalog ---------------------------------------------------------

/// What a hosted partition does for an index, in this order.
#[derive(Debug, Clone, Copy, PartialEq, Eq, Structural)]
pub struct IndexPlan {
    /// The active generation to install.
    pub install: Option<u64>,
    /// The generation to serve, if it is loaded by then.
    pub activate: Option<u64>,
    /// The generation to build; if that fails, nothing is reported.
    pub build: Option<u64>,
    /// The generation to report once it is built.
    pub report: Option<u64>,
}

/// What a hosted partition does for an index.
pub open spec fn index_plan(record: RecordView, active_loaded: bool, building_loaded: bool) -> IndexPlan {
    IndexPlan {
        install: match record.active {
            Some(g) => if active_loaded {
                None
            } else {
                Some(g.id)
            },
            None => None,
        },
        activate: match record.active {
            Some(g) => Some(g.id),
            None => None,
        },
        build: match record.building {
            Some(g) => if building_loaded {
                None
            } else {
                Some(g.id)
            },
            None => None,
        },
        report: match record.building {
            Some(g) => Some(g.id),
            None => None,
        },
    }
}

/// Decide what a hosted partition does for an index.
pub fn reconcile_partition_index(
    record: &SearchIndexRecord,
    active_loaded: bool,
    building_loaded: bool,
) -> (plan: IndexPlan)
    ensures
        plan == index_plan(record@, active_loaded, building_loaded),
{
    let active: Option<u64> = match &record.active {
        Some(g) => Some(g.id),
        None => None,
    };
    let building: Option<u64> = match &record.building {
        Some(g) => Some(g.id),
        None => None,
    };
    IndexPlan {
        install: if active_loaded {
            None
        } else {
            active
        },
        activate: active,
        build: if building_loaded {
            None
        } else {
            building
        },
        report: building,
    }
}

/// Where the voters stand under which this node may report a generation as ready:
/// it must be a voter of a group that is not being moved.
pub open spec fn reportable(placement: Option<PlacementView>, node: NodeId) -> Option<LogId> {
    match placement {
        Some(p) => if p.move_plan is None && p.voters.contains(node) {
            Some(p.voters_log_id)
        } else {
            None
        },
        None => None,
    }
}

/// Decide whether this node may report a generation as ready.
pub fn report_ready(placement: Option<&Placement>, node: NodeId) -> (r: Option<LogId>)
    ensures
        r == reportable(placement_view(placement), node),
{
    match placement {
        None => None,
        Some(p) => match &p.move_plan {
            Some(_) => None,
            None => if holds(&p.voters, node) {
                Some(p.voters_log_id)
            } else {
                None
            },
        },
    }
}

/// The command that reports a generation as ready, where this node leads the meta
/// group; elsewhere peers are asked.
pub fn submit_ready(leads: bool, name: &String, observation: SearchIndexReady) -> (r: Option<
    MetaCommand,
>)
    ensures
        match r {
            Some(c) => leads && c@ == (MetaCommandView::ReportSearchIndexReady {
                name: name@,
                observation,
            }),
            None => !leads,
        },
{
    if leads {
        Some(MetaCommand::ReportSearchIndexReady { name: name.clone(), observation })
    } else {
        None
    }
}

/// Whether a peer took a report: only an outcome ends the search for one.
pub fn ready_taken(reply: Option<&SearchIndexStatusReply>) -> (yes: bool)
    ensures
        yes == (match reply {
            Some(SearchIndexStatusReply::Submitted(r)) => *r is Outcome,
            _ => false,
        }),
{
    match reply {
        Some(SearchIndexStatusReply::Submitted(SubmitReply::Outcome(_))) => true,
        _ => false,
    }
}

/// A loaded generation: its partition, its index and its number.
pub type Loaded = (u16, Seq<char>, u64);

/// Loaded generations by their content.
pub open spec fn loaded_views(list: Seq<(u16, String, u64)>) -> Seq<Loaded> {
    list.map_values(|g: (u16, String, u64)| (g.0, g.1@, g.2))
}

/// Whether a catalog entry names a generation.
pub open spec fn names(record: RecordView, name: Seq<char>, generation: u64) -> bool {
    record.name == name && ((record.active matches Some(g) && g.id == generation) || (
    record.building matches Some(g) && g.id == generation))
}

/// Whether a catalog lists a generation.
pub open spec fn lists(catalog: Seq<RecordView>, name: Seq<char>, generation: u64) -> bool {
    exists|i: int| 0 <= i < catalog.len() && #[trigger] names(catalog[i], name, generation)
}

/// The loaded generations of hosted partitions that the catalog does not list.
pub open spec fn unlisted(catalog: Seq<RecordView>, hosted: Seq<u16>, loaded: Seq<Loaded>) -> Seq<
    Loaded,
>
    decreases loaded.len(),
{
    if loaded.len() == 0 {
        Seq::empty()
    } else {
        let head = unlisted(catalog, hosted, loaded.drop_last());
        let last = loaded.last();
        if hosted.contains(last.0) && !lists(catalog, last.1, last.2) {
            head.push(last)
        } else {
            head
        }
    }
}

fn is_listed(catalog: &Vec<SearchIndexRecord>, name: &String, generation: u64) -> (yes: bool)
    ensures
        yes == lists(record_views(catalog@), name@, generation),
{
    let ghost views = record_views(catalog@);
    let mut i: usize = 0;
    while i < catalog.len()
        invariant
            i <= catalog@.len(),
            views == record_views(catalog@),
            forall|k: int| 0 <= k < i ==> !#[trigger] names(views[k], name@, generation),
        decreases catalog@.len() - i,
    {
        let record = &catalog[i];
        assert(views[i as int] == record@);
        let active: bool = match &record.active {
            Some(g) => g.id == generation,
            None => false,
        };
        let building: bool = match &record.building {
            Some(g) => g.id == generation,
            None => false,
        };
        if record.name == *name && (active || building) {
            assert(names(views[i as int], name@, generation));
            return true;
        }
        i += 1;
    }
    false
}

fn holds_partition(hosted: &Vec<u16>, partition: u16) -> (yes: bool)
    ensures
        yes == hosted@.contains(partition),
{
    let mut i: usize = 0;
    while i < hosted.len()
        invariant
            i <= hosted@.len(),
            forall|k: int| 0 <= k < i ==> hosted@[k] != partition,
        decreases hosted@.len() - i,
    {
        if hosted[i] == partition {
            return true;
        }
        i += 1;
    }
    false
}

/// List the loaded generations to drop.
pub fn drop_unlisted(
    catalog: &Vec<SearchIndexRecord>,
    hosted: &Vec<u16>,
    loaded: &Vec<(u16, String, u64)>,
) -> (out: Vec<(u16, String, u64)>)
    ensures
        loaded_views(out@) == unlisted(record_views(catalog@), hosted@, loaded_views(loaded@)),
{
    let ghost records = record_views(catalog@);
    let ghost all = loaded_views(loaded@);
    let mut out: Vec<(u16, String, u64)> = Vec::new();
    let mut i: usize = 0;
    proof {
        assert(all.take(0) =~= Seq::<Loaded>::empty());
        assert(loaded_views(out@) =~= unlisted(records, hosted@, all.take(0)));
    }
    while i < loaded.len()
        invariant
            i <= loaded@.len(),
            records == record_views(catalog@),
            all == loaded_views(loaded@),
            loaded_views(out@) == unlisted(records, hosted@, all.take(i as int)),
        decreases loaded@.len() - i,
    {
        let partition: u16 = loaded[i].0;
        let name = &loaded[i].1;
        let generation: u64 = loaded[i].2;
        proof {
            assert(all[i as int] == (partition, name@, generation));
            assert(all.take(i + 1).drop_last() =~= all.take(i as int));
            assert(all.take(i + 1).last() == all[i as int]);
        }
        if holds_partition(hosted, partition) && !is_listed(catalog, name, generation) {
            let ghost before = loaded_views(out@);
            out.push((partition, name.clone(), generation));
            assert(loaded_views(out@) =~= before.push(all[i as int]));
        }
        i += 1;
    }
    assert(all.take(i as int) =~= all);
    out
}

/// The commands that finish dropping retired generations.
pub open spec fn retire_commands(name: Seq<char>, retiring: Seq<u64>) -> Seq<MetaCommandView> {
    retiring.map_values(
        |generation: u64| MetaCommandView::FinalizeSearchIndexDrop { name, generation },
    )
}

/// The commands for one catalog entry: its building generation is promoted, then
/// its retiring ones are let go.
pub open spec fn record_commands(record: RecordView) -> Seq<MetaCommandView> {
    let promote = match record.building {
        Some(g) => seq![
            MetaCommandView::ActivateSearchIndexGeneration { name: record.name, generation: g.id },
        ],
        None => Seq::empty(),
    };
    promote + retire_commands(record.name, record.retiring)
}

/// The commands for a catalog. They may be proposed again and again: the meta
/// group checks each when it is applied.
pub open spec fn activation_commands(catalog: Seq<RecordView>) -> Seq<MetaCommandView>
    decreases catalog.len(),
{
    if catalog.len() == 0 {
        Seq::empty()
    } else {
        activation_commands(catalog.drop_last()) + record_commands(catalog.last())
    }
}

/// List the commands that the meta leader proposes for a catalog.
pub fn drive_activation(leads: bool, catalog: &Vec<SearchIndexRecord>) -> (out: Vec<MetaCommand>)
    ensures
        command_views(out@) == (if leads {
            activation_commands(record_views(catalog@))
        } else {
            Seq::empty()
        }),
{
    let mut out: Vec<MetaCommand> = Vec::new();
    assert(command_views(out@) =~= Seq::<MetaCommandView>::empty());
    if !leads {
        return out;
    }
    let ghost views = record_views(catalog@);
    let mut i: usize = 0;
    assert(views.take(0) =~= Seq::<RecordView>::empty());
    while i < catalog.len()
        invariant
            i <= catalog@.len(),
            views == record_views(catalog@),
            command_views(out@) == activation_commands(views.take(i as int)),
        decreases catalog@.len() - i,
    {
        let record = &catalog[i];
        proof {
            assert(views[i as int] == record@);
            assert(views.take(i + 1).drop_last() =~= views.take(i as int));
            assert(views.take(i + 1).last() == views[i as int]);
        }
        let ghost before = command_views(out@);
        let ghost mut promote = Seq::<MetaCommandView>::empty();
        assert(command_views(out@) =~= before + promote);
        if let Some(building) = &record.building {
            out.push(
                MetaCommand::ActivateSearchIndexGeneration {
                    name: record.name.clone(),
                    generation: building.id,
                },
            );
            proof {
                promote = seq![
                    MetaCommandView::ActivateSearchIndexGeneration {
                        name: record.name@,
                        generation: building.id,
                    },
                ];
                assert(command_views(out@) =~= before + promote);
            }
        }
        let ghost head = command_views(out@);
        let ghost drops = retire_commands(record.name@, record.retiring@);
        let mut k: usize = 0;
        assert(head + drops.take(0) =~= head);
        while k < record.retiring.len()
            invariant
                k <= record.retiring@.len(),
                drops == retire_commands(record.name@, record.retiring@),
                command_views(out@) == head + drops.take(k as int),
            decreases record.retiring@.len() - k,
        {
            let ghost prior = command_views(out@);
            out.push(
                MetaCommand::FinalizeSearchIndexDrop {
                    name: record.name.clone(),
                    generation: record.retiring[k],
                },
            );
            proof {
                assert(command_views(out@) =~= prior.push(drops[k as int]));
                assert(command_views(out@) =~= head + drops.take(k + 1));
            }
            k += 1;
        }
        proof {
            assert(drops.take(k as int) =~= drops);
            assert(record_commands(record@) =~= promote + drops);
            assert(command_views(out@) =~= before + record_commands(record@));
        }
        i += 1;
    }
    assert(views.take(i as int) =~= views);
    out
}

// -- laws ------------------------------------------------------------------------

/// A search never asks its own node over the network, and every question takes
/// one candidate out of the round.
pub proof fn law_own_node_is_not_asked(w: WalkView)
    ensures
        ({
            let (r, next) = next_shard(w);
            &&& r matches Some(n) ==> n != w.node && w.queue.contains(n)
            &&& r is Some ==> next.queue.len() < w.queue.len()
            &&& next == (WalkView { queue: next.queue, ..w })
        }),
    decreases w.queue.len(),
{
    if w.queue.len() > 0 && w.queue[0] == w.node {
        let rest = WalkView { queue: w.queue.skip(1), ..w };
        law_own_node_is_not_asked(rest);
        if let Some(n) = next_shard(rest).0 {
            let k = rest.queue.index_of(n);
            assert(w.queue[k + 1] == n);
        }
    }
}

/// The rounds of a search are bounded, and one that ends without a hint is the
/// last.
pub proof fn law_rounds_are_bounded(w: WalkView)
    requires
        w.rounds > 0,
    ensures
        w.rounds >= MAX_ROUNDS ==> !begins_round(w),
        !w.redirected ==> !begins_round(w),
{
}

/// The second phase reaches the replica that the first one prepared, whatever else
/// is remembered in between.
pub proof fn law_phases_share_a_replica(
    held: Seq<((u16, u64), SessionHost)>,
    key: (u16, u64),
    host: SessionHost,
    other: (u16, u64),
    other_host: SessionHost,
)
    requires
        key != other,
    ensures
        get(put(put(held, key, host), other, other_host), key) == Some(host),
{
    lemma_put(held, key, host);
    lemma_put(put(held, key, host), other, other_host);
}

/// Only what the catalog does not list is dropped, and only of hosted partitions.
pub proof fn law_listed_generations_stay(
    catalog: Seq<RecordView>,
    hosted: Seq<u16>,
    loaded: Seq<Loaded>,
    g: Loaded,
)
    requires
        unlisted(catalog, hosted, loaded).contains(g),
    ensures
        loaded.contains(g),
        hosted.contains(g.0),
        !lists(catalog, g.1, g.2),
    decreases loaded.len(),
{
    if loaded.len() > 0 {
        let head = unlisted(catalog, hosted, loaded.drop_last());
        let all = unlisted(catalog, hosted, loaded);
        let i = all.index_of(g);
        if i < head.len() {
            assert(head[i] == g);
            law_listed_generations_stay(catalog, hosted, loaded.drop_last(), g);
            let k = loaded.drop_last().index_of(g);
            assert(loaded[k] == g);
        } else {
            assert(loaded[loaded.len() - 1] == g);
        }
    }
}

/// The nodes asked for a shard are the partition's candidates; a hinted leader is
/// asked before them, and only once.
pub proof fn law_hinted_leaders_are_asked_first(
    routing: Option<RoutingView>,
    partition: u16,
    hint: Option<NodeId>,
    x: NodeId,
)
    ensures
        ({
            let known = routing is Some && routing->0.candidates(partition).contains(x);
            let list = shard_candidates(routing, partition, hint);
            &&& list.contains(x) <==> known || hint == Some(x)
            &&& hint is Some ==> list.len() > 0 && list[0] == hint->0 && !list.skip(1).contains(
                hint->0,
            )
            &&& hint is None && routing is Some ==> list == routing->0.candidates(partition)
        }),
{
    let known = match routing {
        Some(r) => r.candidates(partition),
        None => Seq::empty(),
    };
    let list = shard_candidates(routing, partition, hint);
    if let Some(h) = hint {
        let rest = without(known, h);
        lemma_without(known, h);
        assert(list.skip(1) =~= rest);
        assert(list[0] == h);
        if rest.contains(x) {
            let k = rest.index_of(x);
            assert(list[k + 1] == x);
        }
        if list.contains(x) && x != h {
            let k = list.index_of(x);
            assert(rest[k - 1] == x);
        }
    }
}

/// A search begins another round if and only if it is the first, or a shard pointed
/// elsewhere and rounds are left. A shard that points at another node than itself is
/// followed at once; this node's own word is taken only of another leader.
pub proof fn law_search_rounds(w: WalkView, candidate: NodeId, leader: Option<NodeId>)
    ensures
        begins_round(w) <==> w.rounds < MAX_ROUNDS && (w.rounds == 0 || w.redirected),
        leader is Some && leader != Some(candidate) ==> redirect(w, candidate, leader) == (
        WalkView { hint: leader, queue: Seq::empty(), redirected: true, ..w }),
        leader is None || leader == Some(candidate) ==> redirect(w, candidate, leader) == w,
        local_hint(w, leader) == if leader is Some && leader != Some(w.node) {
            leader
        } else {
            w.hint
        },
{
}

/// What a partition does for an index: it installs what the index serves unless it
/// is loaded, and has it serve; it builds what the index builds unless it is loaded,
/// and reports it.
pub proof fn law_partitions_follow_the_catalog(
    record: RecordView,
    active_loaded: bool,
    building_loaded: bool,
    id: u64,
)
    ensures
        ({
            let plan = index_plan(record, active_loaded, building_loaded);
            let serves = record.active is Some && record.active->0.id == id;
            let builds = record.building is Some && record.building->0.id == id;
            &&& plan.install == Some(id) <==> serves && !active_loaded
            &&& plan.activate == Some(id) <==> serves
            &&& plan.build == Some(id) <==> builds && !building_loaded
            &&& plan.report == Some(id) <==> builds
        }),
{
}

/// A replica reports readiness if and only if its group is settled with it among the
/// voters, at that placement's position.
pub proof fn law_voters_report(placement: Option<PlacementView>, node: NodeId, at: LogId)
    ensures
        reportable(placement, node) == Some(at) <==> placement is Some && placement->0.move_plan is None
            && placement->0.voters.contains(node) && placement->0.voters_log_id == at,
        reportable(placement, node) is None <==> !(placement is Some && placement->0.move_plan is None
            && placement->0.voters.contains(node)),
{
}

/// A generation is dropped from a partition if and only if it is loaded there, the
/// partition is hosted, and no index of that name serves or builds it.
pub proof fn law_unlisted_generations_go(
    catalog: Seq<RecordView>,
    hosted: Seq<u16>,
    loaded: Seq<Loaded>,
    g: Loaded,
)
    ensures
        unlisted(catalog, hosted, loaded).contains(g) <==> loaded.contains(g) && hosted.contains(g.0)
            && forall|i: int|
            0 <= i < catalog.len() && (#[trigger] catalog[i]).name == g.1 ==> !(catalog[i].active
                is Some && catalog[i].active->0.id == g.2) && !(catalog[i].building is Some
                && catalog[i].building->0.id == g.2),
    decreases loaded.len(),
{
    let gone = hosted.contains(g.0) && !lists(catalog, g.1, g.2);
    assert(lists(catalog, g.1, g.2) <==> exists|i: int|
        0 <= i < catalog.len() && (#[trigger] catalog[i]).name == g.1 && ((catalog[i].active is Some
            && catalog[i].active->0.id == g.2) || (catalog[i].building is Some
            && catalog[i].building->0.id == g.2))) by {
        if exists|i: int|
            0 <= i < catalog.len() && (#[trigger] catalog[i]).name == g.1 && ((catalog[i].active is Some
                && catalog[i].active->0.id == g.2) || (catalog[i].building is Some
                && catalog[i].building->0.id == g.2)) {
            let i = choose|i: int|
                0 <= i < catalog.len() && (#[trigger] catalog[i]).name == g.1 && ((
                catalog[i].active is Some && catalog[i].active->0.id == g.2) || (
                catalog[i].building is Some && catalog[i].building->0.id == g.2));
            assert(names(catalog[i], g.1, g.2));
        }
    }
    if loaded.len() > 0 {
        let init = loaded.drop_last();
        law_unlisted_generations_go(catalog, hosted, init, g);
        let head = unlisted(catalog, hosted, init);
        let all = unlisted(catalog, hosted, loaded);
        if head.contains(g) {
            let k = head.index_of(g);
            assert(all[k] == g);
        }
        if all.contains(g) && !head.contains(g) {
            let k = all.index_of(g);
            if k < head.len() {
                assert(head[k] == g);
            }
            assert(loaded[loaded.len() - 1] == g);
        }
        if loaded.contains(g) {
            let k = loaded.index_of(g);
            if k < init.len() {
                assert(init[k] == g);
            } else if gone {
                assert(all[head.len() as int] == g);
            }
        }
        if init.contains(g) {
            let k = init.index_of(g);
            assert(loaded[k] == g);
        }
    }
}

/// The commands for an index are to activate what it builds, if it builds, and then
/// to finalize every generation that waits, in order.
pub proof fn law_indexes_are_driven_on(record: RecordView, i: int)
    requires
        0 <= i < record.retiring.len(),
    ensures
        ({
            let commands = record_commands(record);
            let first: int = if record.building is Some {
                1
            } else {
                0
            };
            &&& commands.len() == first + record.retiring.len()
            &&& record.building is Some ==> commands[0] == (
            MetaCommandView::ActivateSearchIndexGeneration {
                name: record.name,
                generation: record.building->0.id,
            })
            &&& commands[first + i] == (MetaCommandView::FinalizeSearchIndexDrop {
                name: record.name,
                generation: record.retiring[i],
            })
        }),
{
}

/// What a catalog asks for is what each of its indexes asks for, and catalogs put
/// together ask for both.
pub proof fn law_catalogs_are_driven_index_by_index(
    first: Seq<RecordView>,
    second: Seq<RecordView>,
    record: RecordView,
)
    ensures
        activation_commands(seq![record]) == record_commands(record),
        activation_commands(first + second) == activation_commands(first) + activation_commands(
            second,
        ),
    decreases second.len(),
{
    let one = seq![record];
    assert(one.drop_last() =~= Seq::<RecordView>::empty());
    assert(activation_commands(one.drop_last()) =~= Seq::<MetaCommandView>::empty());
    assert(activation_commands(one) =~= record_commands(record));
    if second.len() == 0 {
        assert(first + second =~= first);
        assert(activation_commands(first) + activation_commands(second) =~= activation_commands(
            first,
        ));
    } else {
        let init = second.drop_last();
        law_catalogs_are_driven_index_by_index(first, init, record);
        assert((first + second).drop_last() =~= first + init);
        assert((first + second).last() == second.last());
        assert(activation_commands(first + second) =~= activation_commands(first)
            + activation_commands(second));
    }
}

/// A search ends exactly where a replica served it or failed it, with what that
/// replica said; a replica that does not lead, or does not answer, ends nothing.
pub proof fn law_searches_end_with_an_answer<T>(
    reply: Option<ShardReply<T>>,
    r: Option<Result<T, Error>>,
)
    requires
        settled(reply, r),
    ensures
        r is None <==> reply is None || reply->0 is NotLeader,
        reply is Some && reply->0 is Served <==> r is Some && r->0 is Ok,
        reply is Some && reply->0 is Served ==> r == Some(Ok::<T, Error>(reply->0->Served_0)),
        reply is Some && reply->0 is Error ==> r is Some && r->0 is Err && r->0->Err_0@
            == ErrorView::Search(reply->0->Error_0@),
{
}

} // verus!
