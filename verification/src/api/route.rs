//! Walking the candidates of an operation: whom to call next, what a reply
//! changes, and when to give up.
use crate::api::client::{Client, ClientView, RouteOrder, MAX_ROUNDS};
use crate::api::ops::{
    Redirect, RedirectView, RoutingView, SearchCatalogReply, SearchShardReply,
};
use crate::error::{Error, ErrorView};
use crate::search::{SearchIndexGeneration, SearchIndexRecord};
use crate::text::{decimal, hex, prefixed, quoted, quoted_of, to_decimal, to_hex};
use crate::transport::{Envelope, MsgType};
use crate::types::{ClusterId, NodeId};
use vstd::prelude::*;

verus! {

/// One operation's walk over its candidates.
pub struct RouteWalk {
    partition: u16,
    order: RouteOrder,
    round: usize,
    queue: Vec<NodeId>,
    redirected: bool,
}

/// The content of a walk.
#[verifier::ext_equal]
pub struct WalkView {
    pub partition: u16,
    pub order: RouteOrder,
    /// The rounds that are over.
    pub round: nat,
    /// The candidates left in this round.
    pub queue: Seq<NodeId>,
    /// Whether a redirect came in this round.
    pub redirected: bool,
}

impl View for RouteWalk {
    type V = WalkView;

    closed spec fn view(&self) -> WalkView {
        WalkView {
            partition: self.partition,
            order: self.order,
            round: self.round as nat,
            queue: self.queue@,
            redirected: self.redirected,
        }
    }
}

/// What an answered call brought.
pub enum Answer {
    /// Nothing that can be read: the node cannot serve now.
    Unreadable,
    Redirect(Redirect),
    /// What the caller asked for, or a final refusal.
    Final,
}

/// What the walk does after an answer.
#[derive(Debug, Clone, Copy, PartialEq, Eq, Structural)]
pub enum WalkStep {
    /// Go on with the next candidate.
    Continue,
    /// The answer is the operation's.
    Finished,
    /// The answer comes from another cluster.
    ForeignReply,
    /// The redirect comes from another cluster.
    ForeignRedirect(ClusterId),
}

/// Where a node listens, as far as the snapshot knows.
pub open spec fn address(routing: Option<RoutingView>, node: NodeId) -> Option<Seq<char>> {
    match routing {
        Some(info) => info.control_addr(node),
        None => None,
    }
}

/// The first candidate of a queue whose address is known.
pub open spec fn first_reachable(routing: Option<RoutingView>, queue: Seq<NodeId>) -> Option<int>
    decreases queue.len(),
{
    if queue.len() == 0 {
        None
    } else if address(routing, queue[0]) is Some {
        Some(0)
    } else {
        match first_reachable(routing, queue.skip(1)) {
            Some(i) => Some(i + 1),
            None => None,
        }
    }
}

/// What an answer from a node makes of the walk and the client.
pub open spec fn after_answer(
    walk: WalkView,
    client: ClientView,
    node: NodeId,
    cluster_id: ClusterId,
    answer: Option<RedirectView>,
    readable: bool,
) -> (WalkStep, WalkView, ClientView) {
    if cluster_id != client.cluster_id {
        (WalkStep::ForeignReply, walk, client)
    } else if !readable {
        (WalkStep::Continue, walk, client)
    } else {
        match answer {
            None => (WalkStep::Finished, walk, client),
            Some(r) => if r.cluster_id != client.cluster_id {
                (WalkStep::ForeignRedirect(r.cluster_id), walk, client)
            } else {
                (
                    WalkStep::Continue,
                    WalkView {
                        redirected: true,
                        queue: if r.leader is Some && r.leader != Some(node) {
                            Seq::empty()
                        } else {
                            walk.queue
                        },
                        ..walk
                    },
                    client.after_redirect(walk.partition, node, r),
                )
            },
        }
    }
}

/// The redirect of an answer.
pub open spec fn answer_redirect(a: Answer) -> Option<RedirectView> {
    match a {
        Answer::Redirect(r) => Some(r@),
        _ => None,
    }
}

impl RouteWalk {
    /// Begin an operation on a partition with its candidates.
    pub fn begin(client: &mut Client, partition: u16, order: RouteOrder) -> (w: RouteWalk)
        requires
            old(client).valid(),
        ensures
            final(client).valid(),
            final(client)@ == old(client)@.after_ordering(partition, order),
            w@ == (WalkView {
                partition,
                order,
                round: 0,
                queue: old(client)@.ordered(partition, order),
                redirected: false,
            }),
    {
        let queue = client.candidate_nodes(partition, order);
        RouteWalk { partition, order, round: 0, queue, redirected: false }
    }

    /// The next candidate to call, with its address; candidates without one are
    /// passed over.
    pub fn next_call(&mut self, client: &Client) -> (r: Option<(NodeId, String)>)
        ensures
            match r {
                Some((node, addr)) => first_reachable(client@.routing, old(self)@.queue) matches Some(
                    i,
                ) && node == old(self)@.queue[i] && address(client@.routing, node) == Some(addr@)
                    && final(self)@ == (WalkView {
                    queue: old(self)@.queue.skip(i + 1),
                    ..old(self)@
                }),
                None => first_reachable(client@.routing, old(self)@.queue) is None && final(self)@
                    == (WalkView { queue: Seq::empty(), ..old(self)@ }),
            },
    {
        let ghost start = self@;
        let ghost routing = client@.routing;
        let mut k: usize = 0;
        assert(start.queue.skip(0) =~= start.queue);
        while k < self.queue.len()
            invariant
                k <= self.queue@.len(),
                start == self@,
                start == old(self)@,
                start.queue == self.queue@,
                routing == client@.routing,
                first_reachable(routing, start.queue) == match first_reachable(
                    routing,
                    start.queue.skip(k as int),
                ) {
                    Some(i) => Some(i + k),
                    None => None,
                },
            decreases self.queue@.len() - k,
        {
            let node: NodeId = self.queue[k];
            assert(start.queue.skip(k as int)[0] == node);
            match client.resolve_addr(node) {
                Some(addr) => {
                    let mut rest: Vec<NodeId> = Vec::new();
                    let mut j: usize = k + 1;
                    while j < self.queue.len()
                        invariant
                            k + 1 <= j <= self.queue@.len(),
                            start == self@,
                            start.queue == self.queue@,
                            rest@ == start.queue.skip(k + 1).take(j - k - 1),
                        decreases self.queue@.len() - j,
                    {
                        rest.push(self.queue[j]);
                        assert(rest@ =~= start.queue.skip(k + 1).take(j - k));
                        j += 1;
                    }
                    assert(rest@ =~= start.queue.skip(k + 1));
                    self.queue = rest;
                    return Some((node, addr));
                },
                None => {
                    assert(start.queue.skip(k as int).skip(1) =~= start.queue.skip(k + 1));
                    k += 1;
                },
            }
        }
        assert(start.queue.skip(k as int) =~= Seq::<NodeId>::empty());
        self.queue = Vec::new();
        assert(self@.queue =~= Seq::<NodeId>::empty());
        None
    }

    /// Take in an answer. One from another cluster ends the walk. A redirect is
    /// taken in; if it names another leader, the round starts over with it. An
    /// answer that cannot be read is passed over.
    pub fn on_answer(&mut self, client: &mut Client, node: NodeId, cluster_id: ClusterId, answer: Answer) -> (step:
        WalkStep)
        requires
            old(client).valid(),
        ensures
            final(client).valid(),
            (step, final(self)@, final(client)@) == after_answer(
                old(self)@,
                old(client)@,
                node,
                cluster_id,
                answer_redirect(answer),
                !(answer is Unreadable),
            ),
    {
        if cluster_id != client.cluster() {
            return WalkStep::ForeignReply;
        }
        match answer {
            Answer::Unreadable => WalkStep::Continue,
            Answer::Final => WalkStep::Finished,
            Answer::Redirect(r) => {
                if r.cluster_id != client.cluster() {
                    return WalkStep::ForeignRedirect(r.cluster_id);
                }
                client.apply_redirect(self.partition, node, &r);
                self.redirected = true;
                let restart: bool = match r.leader {
                    Some(leader) => leader != node,
                    None => false,
                };
                if restart {
                    self.queue = Vec::new();
                    assert(self@.queue =~= Seq::<NodeId>::empty());
                }
                WalkStep::Continue
            },
        }
    }

    /// Whether the round that is over must be followed by a refresh that
    /// succeeds: after a redirect, what it taught is enough to go on.
    pub fn must_refresh(&self) -> (must: bool)
        ensures
            must == !self@.redirected,
    {
        !self.redirected
    }

    /// Start the next round with fresh candidates; none is left after the last.
    pub fn next_round(&mut self, client: &mut Client) -> (more: bool)
        requires
            old(client).valid(),
        ensures
            final(client).valid(),
            more == (old(self)@.round + 1 < MAX_ROUNDS),
            more ==> final(client)@ == old(client)@.after_ordering(
                old(self)@.partition,
                old(self)@.order,
            ) && final(self)@ == (WalkView {
                round: old(self)@.round + 1,
                queue: old(client)@.ordered(old(self)@.partition, old(self)@.order),
                redirected: false,
                ..old(self)@
            }),
            !more ==> final(client)@ == old(client)@ && final(self)@ == old(self)@,
    {
        if self.round >= MAX_ROUNDS - 1 {
            return false;
        }
        self.round = self.round + 1;
        self.queue = client.candidate_nodes(self.partition, self.order);
        self.redirected = false;
        true
    }
}

/// Why an operation gave up.
pub fn route_exhausted(partition: u16) -> (e: Error)
    ensures
        e@ == ErrorView::Io(
            "no candidate served partition "@ + decimal(partition as nat) + " within "@ + decimal(
                MAX_ROUNDS as nat,
            ) + " rounds"@,
        ),
{
    let mut s = prefixed("no candidate served partition ", to_decimal(partition as u128).as_str());
    s.append(" within ");
    s.append(to_decimal(MAX_ROUNDS as u128).as_str());
    s.append(" rounds");
    Error::Io(s)
}

/// Why a search gave up.
pub fn search_exhausted(partition: u16) -> (e: Error)
    ensures
        e@ == ErrorView::Search(
            "no candidate served search partition "@ + decimal(partition as nat),
        ),
{
    Error::Search(
        prefixed("no candidate served search partition ", to_decimal(partition as u128).as_str()),
    )
}

/// That a reply came from another cluster.
pub fn foreign_reply(got: ClusterId, expected: ClusterId) -> (e: Error)
    ensures
        e@ == ErrorView::Raft(
            "reply from cluster "@ + hex(got as nat) + ", expected "@ + hex(expected as nat),
        ),
{
    let mut s = prefixed("reply from cluster ", to_hex(got).as_str());
    s.append(", expected ");
    s.append(to_hex(expected).as_str());
    Error::Raft(s)
}

/// That a redirect came from another cluster.
pub fn foreign_redirect(got: ClusterId, expected: ClusterId) -> (e: Error)
    ensures
        e@ == ErrorView::Raft(
            "redirect from cluster "@ + hex(got as nat) + ", expected "@ + hex(expected as nat),
        ),
{
    let mut s = prefixed("redirect from cluster ", to_hex(got).as_str());
    s.append(", expected ");
    s.append(to_hex(expected).as_str());
    Error::Raft(s)
}

/// That the answer to a search came from another cluster: a reply, or a redirect.
pub fn foreign_search(redirect: bool) -> (e: Error)
    ensures
        e@ == ErrorView::Search(
            if redirect {
                "search redirect came from another cluster"@
            } else {
                "search reply came from another cluster"@
            },
        ),
{
    if redirect {
        Error::Search("search redirect came from another cluster".to_owned())
    } else {
        Error::Search("search reply came from another cluster".to_owned())
    }
}

/// What a shard's answer makes of a search.
#[derive(Debug, PartialEq, Eq)]
pub enum ShardStep<T> {
    /// Ask where it points to.
    Redirect(Redirect),
    /// The shard's result, or why it has none.
    Done(Result<T, Error>),
}

/// Sort out a shard's answer: a refusal ends the search as an error does.
pub fn shard_step<T>(reply: SearchShardReply<T>) -> (step: ShardStep<T>)
    ensures
        match reply {
            SearchShardReply::Result(found) => step == ShardStep::Done(Ok::<T, Error>(found)),
            SearchShardReply::Redirect(r) => step == ShardStep::<T>::Redirect(r),
            SearchShardReply::Refused(text) => step matches ShardStep::Done(Err(e)) && e@
                == ErrorView::Search(text@),
            SearchShardReply::Error(text) => step matches ShardStep::Done(Err(e)) && e@
                == ErrorView::Search(text@),
        },
{
    match reply {
        SearchShardReply::Result(found) => ShardStep::Done(Ok(found)),
        SearchShardReply::Redirect(r) => ShardStep::Redirect(r),
        SearchShardReply::Refused(text) => ShardStep::Done(Err(Error::Search(text))),
        SearchShardReply::Error(text) => ShardStep::Done(Err(Error::Search(text))),
    }
}

/// What a seed's answer to a catalog query makes of a lookup: nothing, where the
/// next seed is asked; `reply` is the answer's body, if it can be read.
pub fn search_index(
    cluster_id: ClusterId,
    envelope: &Envelope,
    reply: Option<SearchCatalogReply>,
) -> (r: Option<Result<Option<SearchIndexRecord>, Error>>)
    ensures
        if envelope.cluster_id != cluster_id || !(envelope.msg_type is SearchCatalogQuery) {
            r is None
        } else {
            match reply {
                Some(SearchCatalogReply::Record(record)) => r == Some(
                    Ok::<Option<SearchIndexRecord>, Error>(record),
                ),
                Some(SearchCatalogReply::Error(text)) => r matches Some(Err(e)) && e@
                    == ErrorView::Search(text@),
                _ => r is None,
            }
        },
{
    if envelope.cluster_id != cluster_id || envelope.msg_type != MsgType::SearchCatalogQuery {
        return None;
    }
    match reply {
        Some(SearchCatalogReply::Record(record)) => Some(Ok(record)),
        Some(SearchCatalogReply::Error(text)) => Some(Err(Error::Search(text))),
        _ => None,
    }
}

/// That no seed answered a catalog query.
pub fn catalog_unanswered() -> (e: Error)
    ensures
        e@ == ErrorView::Search("no seed answered the search catalog query"@),
{
    Error::Search("no seed answered the search catalog query".to_owned())
}

/// That no seed answered a routing query.
pub fn routing_unanswered() -> (e: Error)
    ensures
        e@ == ErrorView::Io("no seed answered a routing query"@),
{
    Error::Io("no seed answered a routing query".to_owned())
}

/// The active generation of an index that a search is to run on.
pub fn active_generation(index: &String, record: Option<SearchIndexRecord>) -> (r: Result<
    SearchIndexGeneration,
    Error,
>)
    ensures
        match record {
            None => r matches Err(e) && e@ == ErrorView::Search(
                "index "@ + quoted_of(index@) + " does not exist"@,
            ),
            Some(rec) => match rec.active {
                Some(generation) => r == Ok::<SearchIndexGeneration, Error>(generation),
                None => r matches Err(e) && e@ == ErrorView::Search(
                    "index "@ + quoted_of(index@) + " has no active generation"@,
                ),
            },
        },
{
    match record {
        None => {
            let mut s = prefixed("index ", quoted(index.as_str()).as_str());
            s.append(" does not exist");
            Err(Error::Search(s))
        },
        Some(rec) => match rec.active {
            Some(generation) => Ok(generation),
            None => {
                let mut s = prefixed("index ", quoted(index.as_str()).as_str());
                s.append(" has no active generation");
                Err(Error::Search(s))
            },
        },
    }
}

// -- laws --------------------------------------------------------------------

/// The first reachable candidate is the first one with an address.
pub proof fn law_candidates_are_tried_in_order(routing: Option<RoutingView>, queue: Seq<NodeId>, j: int)
    requires
        0 <= j < queue.len(),
    ensures
        match first_reachable(routing, queue) {
            Some(i) => 0 <= i < queue.len() && address(routing, queue[i]) is Some && (j < i
                ==> address(routing, queue[j]) is None),
            None => address(routing, queue[j]) is None,
        },
    decreases queue.len(),
{
    if address(routing, queue[0]) is None {
        if j > 0 {
            law_candidates_are_tried_in_order(routing, queue.skip(1), j - 1);
            assert(queue.skip(1)[j - 1] == queue[j]);
        }
        match first_reachable(routing, queue.skip(1)) {
            Some(i) => {
                if queue.len() > 1 {
                    law_candidates_are_tried_in_order(routing, queue.skip(1), 0);
                    assert(queue.skip(1)[i] == queue[i + 1]);
                }
            },
            None => {},
        }
    }
}

/// Every call shortens the round: a walk calls each candidate at most once per
/// round, and ends after a bounded number of rounds.
pub proof fn law_calls_shorten_the_round(routing: Option<RoutingView>, queue: Seq<NodeId>, i: int)
    requires
        first_reachable(routing, queue) == Some(i),
    ensures
        queue.skip(i + 1).len() < queue.len(),
{
    if queue.len() > 0 {
        law_candidates_are_tried_in_order(routing, queue, 0);
    }
}

/// Nothing from another cluster is believed: neither a reply nor a redirect
/// changes what the client knows.
pub proof fn law_foreign_answers_teach_nothing(
    walk: WalkView,
    client: ClientView,
    node: NodeId,
    cluster_id: ClusterId,
    answer: Option<RedirectView>,
    readable: bool,
)
    requires
        cluster_id != client.cluster_id || (readable && answer is Some && (answer->0).cluster_id
            != client.cluster_id),
    ensures
        ({
            let (step, w, c) = after_answer(walk, client, node, cluster_id, answer, readable);
            c == client && w == walk && (step is ForeignReply || step is ForeignRedirect)
        }),
{
}

/// What an answer does to a walk. A reply of another cluster ends it, and so does a
/// redirect of another; an unreadable one is passed over; a redirect is learned, and
/// gives up the rest of the round where it names a leader other than the node that
/// sent it; anything else is the final answer, and changes nothing.
pub proof fn law_answers_steer_the_walk(
    walk: WalkView,
    client: ClientView,
    node: NodeId,
    cluster_id: ClusterId,
    answer: Option<RedirectView>,
    readable: bool,
)
    ensures
        ({
            let (step, w, c) = after_answer(walk, client, node, cluster_id, answer, readable);
            let own = cluster_id == client.cluster_id;
            let learned = own && readable && answer is Some && answer->0.cluster_id
                == client.cluster_id;
            &&& step is ForeignReply <==> !own
            &&& step is Finished <==> own && readable && answer is None
            &&& step is ForeignRedirect <==> own && readable && answer is Some
                && answer->0.cluster_id != client.cluster_id
            &&& step is Continue <==> own && (!readable || learned)
            &&& !learned ==> w == walk && c == client
            &&& learned ==> {
                &&& c == client.after_redirect(walk.partition, node, answer->0)
                &&& w.redirected
                &&& w.queue == if answer->0.leader is None || answer->0.leader == Some(node) {
                    walk.queue
                } else {
                    Seq::empty()
                }
                &&& w == (WalkView { redirected: true, queue: w.queue, ..walk })
            }
        }),
{
}

} // verus!
