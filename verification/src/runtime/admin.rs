//! Operator commands: whom to send one to, and how to follow the answers to the
//! meta leader.
use crate::api::ops::RoutingInfo;
use crate::assoc::{get, keys_distinct, lemma_put, lemma_slot_is, put};
use crate::config::NodeConfig;
use crate::error::{config_error, Error, ErrorView};
use crate::meta::bootstrap::{dir_views, BootstrapDescriptor, DirEntryView};
use crate::meta::state_machine::{MetaApplyResult, ResultView};
use crate::runtime::directory::last_address;
use crate::sets::{lemma_merged, merged};
use crate::strings::{copy_texts, holds_text, merge_texts, texts};
use crate::text::{hex, prefixed, to_hex};
use crate::transport::{Envelope, MsgType};
use crate::types::{entry_views, ClusterId, NodeDirectoryEntry, NodeEntryView, NodeId};
use crate::wire::{JoinBody, SubmitReply, SubmitReplyView};
use vstd::prelude::*;

verus! {

/// How many members one command contacts at most.
pub const MAX_ATTEMPTS: usize = 32;

/// Addresses by node.
pub type Addresses = Seq<(NodeId, Seq<char>)>;

/// Where to send a command: addresses to try in order, and where each node
/// listens, to follow a hint.
pub struct Targets {
    candidates: Vec<String>,
    directory: Vec<(NodeId, String)>,
}

/// The content of targets.
#[verifier::ext_equal]
pub struct TargetsView {
    pub candidates: Seq<Seq<char>>,
    pub directory: Addresses,
}

impl View for Targets {
    type V = TargetsView;

    closed spec fn view(&self) -> TargetsView {
        TargetsView {
            candidates: texts(self.candidates@),
            directory: self.directory@.map_values(|e: (NodeId, String)| (e.0, e.1@)),
        }
    }
}

/// Where the nodes of a descriptor listen; of two entries for a node the later
/// counts.
pub open spec fn descriptor_addresses(directory: Seq<DirEntryView>) -> Addresses
    decreases directory.len(),
{
    if directory.len() == 0 {
        Seq::empty()
    } else {
        put(
            descriptor_addresses(directory.drop_last()),
            directory.last().node_id,
            directory.last().control_addr,
        )
    }
}

/// Addresses with those of a live directory put over them.
pub open spec fn with_entries(known: Addresses, directory: Seq<NodeEntryView>) -> Addresses
    decreases directory.len(),
{
    if directory.len() == 0 {
        known
    } else {
        put(
            with_entries(known, directory.drop_last()),
            directory.last().node_id,
            directory.last().control_addr,
        )
    }
}

/// The control addresses of a directory, in order.
pub open spec fn control_addresses(directory: Seq<NodeEntryView>) -> Seq<Seq<char>> {
    directory.map_values(|e: NodeEntryView| e.control_addr)
}

/// The addresses of some nodes, as far as they are known, in order.
pub open spec fn resolved(known: Addresses, ids: Seq<NodeId>) -> Seq<Seq<char>>
    decreases ids.len(),
{
    if ids.len() == 0 {
        Seq::empty()
    } else {
        let head = resolved(known, ids.drop_last());
        match get(known, ids.last()) {
            Some(addr) => head.push(addr),
            None => head,
        }
    }
}

/// The address that an operator pinned, if any.
pub open spec fn pinned(seed: Option<Seq<char>>) -> Seq<Seq<char>> {
    match seed {
        Some(addr) => seq![addr],
        None => Seq::empty(),
    }
}

/// The targets of a command: the pinned address, then the contacts, each once;
/// and where every node of the descriptor listens.
pub open spec fn targets_of(directory: Seq<DirEntryView>, seed: Option<Seq<char>>, contacts: Seq<NodeId>) -> TargetsView {
    let known = descriptor_addresses(directory);
    TargetsView {
        candidates: merged(Seq::empty(), pinned(seed) + resolved(known, contacts)),
        directory: known,
    }
}

fn put_address(directory: &mut Vec<(NodeId, String)>, node: NodeId, addr: String)
    requires
        keys_distinct(old(directory)@.map_values(|e: (NodeId, String)| (e.0, e.1@))),
    ensures
        final(directory)@.map_values(|e: (NodeId, String)| (e.0, e.1@)) == put(
            old(directory)@.map_values(|e: (NodeId, String)| (e.0, e.1@)),
            node,
            addr@,
        ),
        keys_distinct(final(directory)@.map_values(|e: (NodeId, String)| (e.0, e.1@))),
{
    let ghost view = |e: (NodeId, String)| (e.0, e.1@);
    let ghost before = directory@.map_values(|e: (NodeId, String)| (e.0, e.1@));
    let ghost text = addr@;
    let mut i: usize = 0;
    while i < directory.len() && directory[i].0 != node
        invariant
            i <= directory@.len(),
            directory@ == old(directory)@,
            before == directory@.map_values(|e: (NodeId, String)| (e.0, e.1@)),
            forall|j: int| 0 <= j < i ==> (#[trigger] before[j]).0 != node,
        decreases directory@.len() - i,
    {
        i += 1;
    }
    proof {
        lemma_slot_is(before, node, i as int);
    }
    if i < directory.len() {
        directory.set(i, (node, addr));
    } else {
        directory.push((node, addr));
    }
    proof {
        assert(directory@.map_values(|e: (NodeId, String)| (e.0, e.1@)) =~= put(
            before,
            node,
            text,
        ));
        lemma_put(before, node, text);
    }
}

impl Targets {
    pub closed spec fn valid(&self) -> bool {
        keys_distinct(self@.directory)
    }

    /// The targets of a node that knows only its seeds.
    pub fn from_seeds(seeds: &Vec<String>) -> (t: Targets)
        ensures
            t.valid(),
            t@ == (TargetsView { candidates: texts(seeds@), directory: Seq::empty() }),
    {
        let t = Targets { candidates: copy_texts(seeds), directory: Vec::new() };
        assert(t@.directory =~= Seq::<(NodeId, Seq<char>)>::empty());
        t
    }

    fn address(&self, node: NodeId) -> (r: Option<&String>)
        ensures
            match r {
                Some(addr) => get(self@.directory, node) == Some(addr@),
                None => get(self@.directory, node) is None,
            },
    {
        let mut i: usize = 0;
        while i < self.directory.len() && self.directory[i].0 != node
            invariant
                i <= self.directory@.len(),
                forall|j: int| 0 <= j < i ==> (#[trigger] self@.directory[j]).0 != node,
            decreases self.directory@.len() - i,
        {
            i += 1;
        }
        proof {
            lemma_slot_is(self@.directory, node, i as int);
        }
        if i < self.directory.len() {
            Some(&self.directory[i].1)
        } else {
            None
        }
    }

    /// The targets that a descriptor gives, with a pinned address first.
    pub fn from_descriptor(desc: &BootstrapDescriptor, seed: Option<&String>, contacts: &Vec<NodeId>) -> (t:
        Targets)
        ensures
            t.valid(),
            t@ == targets_of(
                desc@.directory,
                match seed {
                    Some(addr) => Some(addr@),
                    None => None,
                },
                contacts@,
            ),
    {
        let mut t = Targets { candidates: Vec::new(), directory: Vec::new() };
        let ghost views = desc@.directory;
        proof {
            assert(views.take(0) =~= Seq::<DirEntryView>::empty());
            assert(t@.directory =~= Seq::<(NodeId, Seq<char>)>::empty());
        }
        let mut i: usize = 0;
        while i < desc.directory.len()
            invariant
                i <= desc.directory@.len(),
                views == dir_views(desc.directory@),
                t.valid(),
                t.candidates@.len() == 0,
                t@.directory == descriptor_addresses(views.take(i as int)),
            decreases desc.directory@.len() - i,
        {
            let entry = &desc.directory[i];
            proof {
                assert(views[i as int] == entry@);
                assert(views.take(i + 1).drop_last() =~= views.take(i as int));
                assert(views.take(i + 1).last() == views[i as int]);
            }
            put_address(&mut t.directory, entry.node_id, entry.control_addr.clone());
            i += 1;
        }
        assert(views.take(i as int) =~= views);
        let ghost known = descriptor_addresses(views);
        let mut listed: Vec<String> = Vec::new();
        if let Some(addr) = seed {
            listed.push(addr.clone());
        }
        let ghost first = texts(listed@);
        proof {
            assert(first =~= pinned(
                match seed {
                    Some(addr) => Some(addr@),
                    None => None,
                },
            ));
            assert(contacts@.take(0) =~= Seq::<NodeId>::empty());
            assert(first + resolved(known, contacts@.take(0)) =~= first);
        }
        let mut k: usize = 0;
        while k < contacts.len()
            invariant
                k <= contacts@.len(),
                t.valid(),
                t@.directory == known,
                t.candidates@.len() == 0,
                texts(listed@) == first + resolved(known, contacts@.take(k as int)),
            decreases contacts@.len() - k,
        {
            proof {
                assert(contacts@.take(k + 1).drop_last() =~= contacts@.take(k as int));
                assert(contacts@.take(k + 1).last() == contacts@[k as int]);
            }
            if let Some(addr) = t.address(contacts[k]) {
                let ghost before = texts(listed@);
                listed.push(addr.clone());
                assert(texts(listed@) =~= before.push(addr@));
                assert(texts(listed@) =~= first + resolved(known, contacts@.take(k + 1)));
            }
            k += 1;
        }
        assert(contacts@.take(k as int) =~= contacts@);
        let mut candidates: Vec<String> = Vec::new();
        assert(texts(candidates@) =~= Seq::<Seq<char>>::empty());
        merge_texts(&mut candidates, &listed);
        t.candidates = candidates;
        t
    }

    /// Take in an authoritative directory: it replaces what was known of
    /// addresses, and adds to the candidates.
    pub fn adopt_directory(&mut self, live: &Vec<NodeDirectoryEntry>)
        requires
            old(self).valid(),
        ensures
            final(self).valid(),
            final(self)@ == (TargetsView {
                candidates: merged(
                    old(self)@.candidates,
                    control_addresses(entry_views(live@)),
                ),
                directory: with_entries(Seq::empty(), entry_views(live@)),
            }),
    {
        self.directory = Vec::new();
        assert(self@.directory =~= Seq::<(NodeId, Seq<char>)>::empty());
        self.add_entries(live);
    }

    /// Take in an advisory snapshot: it adds to what was known.
    pub fn extend_directory(&mut self, live: &Vec<NodeDirectoryEntry>)
        requires
            old(self).valid(),
        ensures
            final(self).valid(),
            final(self)@ == (TargetsView {
                candidates: merged(
                    old(self)@.candidates,
                    control_addresses(entry_views(live@)),
                ),
                directory: with_entries(old(self)@.directory, entry_views(live@)),
            }),
    {
        self.add_entries(live);
    }

    /// Take in a member's answer to a routing query, if it is one of this cluster.
    pub fn on_routing(
        &mut self,
        cluster_id: ClusterId,
        reply: &Envelope,
        info: Option<&RoutingInfo>,
    ) -> (taken: bool)
        requires
            old(self).valid(),
        ensures
            final(self).valid(),
            taken == (reply.cluster_id == cluster_id && reply.msg_type is MetaQuery && match info {
                Some(i) => i.cluster_id == cluster_id,
                None => false,
            }),
            !taken ==> *final(self) == *old(self),
            taken ==> final(self)@ == (TargetsView {
                candidates: merged(
                    old(self)@.candidates,
                    control_addresses(entry_views(info->0.directory@)),
                ),
                directory: with_entries(old(self)@.directory, entry_views(info->0.directory@)),
            }),
    {
        if !routing_reply_matches(cluster_id, reply) {
            return false;
        }
        match info {
            Some(i) => if i.cluster_id == cluster_id {
                self.extend_directory(&i.directory);
                true
            } else {
                false
            },
            None => false,
        }
    }

    fn add_entries(&mut self, live: &Vec<NodeDirectoryEntry>)
        requires
            old(self).valid(),
        ensures
            final(self).valid(),
            final(self)@ == (TargetsView {
                candidates: merged(
                    old(self)@.candidates,
                    control_addresses(entry_views(live@)),
                ),
                directory: with_entries(old(self)@.directory, entry_views(live@)),
            }),
    {
        let ghost before = self@;
        let ghost views = entry_views(live@);
        let mut addrs: Vec<String> = Vec::new();
        let mut i: usize = 0;
        proof {
            assert(views.take(0) =~= Seq::<NodeEntryView>::empty());
            assert(texts(addrs@) =~= control_addresses(views.take(0)));
        }
        while i < live.len()
            invariant
                i <= live@.len(),
                views == entry_views(live@),
                self.valid(),
                self@.candidates == before.candidates,
                self@.directory == with_entries(before.directory, views.take(i as int)),
                texts(addrs@) == control_addresses(views.take(i as int)),
            decreases live@.len() - i,
        {
            let entry = &live[i];
            proof {
                assert(views[i as int] == entry@);
                assert(views.take(i + 1).drop_last() =~= views.take(i as int));
                assert(views.take(i + 1).last() == views[i as int]);
            }
            put_address(&mut self.directory, entry.node_id, entry.control_addr.clone());
            let ghost prior = texts(addrs@);
            addrs.push(entry.control_addr.clone());
            proof {
                assert(texts(addrs@) =~= prior.push(entry.control_addr@));
                assert(control_addresses(views.take(i + 1)) =~= control_addresses(
                    views.take(i as int),
                ).push(entry.control_addr@));
            }
            i += 1;
        }
        assert(views.take(i as int) =~= views);
        merge_texts(&mut self.candidates, &addrs);
        assert(self@ =~= (TargetsView {
            candidates: merged(before.candidates, control_addresses(views)),
            directory: with_entries(before.directory, views),
        }));
    }

    /// A copy of the addresses to try.
    pub fn candidates(&self) -> (out: Vec<String>)
        ensures
            texts(out@) == self@.candidates,
    {
        copy_texts(&self.candidates)
    }
}

/// Whether a reply can be this cluster's routing snapshot.
pub fn routing_reply_matches(cluster_id: ClusterId, reply: &Envelope) -> (yes: bool)
    ensures
        yes == (reply.cluster_id == cluster_id && reply.msg_type is MetaQuery),
{
    reply.cluster_id == cluster_id && reply.msg_type == MsgType::MetaQuery
}

/// A node joins through its seeds, so it needs one.
pub fn require_seeds(seeds: &Vec<String>) -> (r: Result<(), Error>)
    ensures
        r is Ok <==> seeds@.len() > 0,
        match r {
            Ok(_) => true,
            Err(e) => e@ == ErrorView::Config(
                "join needs at least one seed in the node config"@,
            ),
        },
{
    if seeds.len() == 0 {
        return Err(config_error("join needs at least one seed in the node config"));
    }
    Ok(())
}

// -- following a command to the leader ---------------------------------------

/// A command's way to the leader.
pub struct SubmitWalk {
    queue: Vec<String>,
    tried: Vec<String>,
    last_error: Option<String>,
}

/// The content of a command's way.
#[verifier::ext_equal]
pub struct SubmitView {
    /// The addresses to try, the next one first.
    pub queue: Seq<Seq<char>>,
    /// The addresses that were tried.
    pub tried: Seq<Seq<char>>,
    pub last_error: Option<Seq<char>>,
}

impl View for SubmitWalk {
    type V = SubmitView;

    closed spec fn view(&self) -> SubmitView {
        SubmitView {
            queue: texts(self.queue@),
            tried: texts(self.tried@),
            last_error: match self.last_error {
                Some(e) => Some(e@),
                None => None,
            },
        }
    }
}

/// The next address to try, with the way after it: addresses that were tried are
/// passed over, and after the last attempt there is none.
pub open spec fn next_attempt(w: SubmitView) -> (Option<Seq<char>>, SubmitView)
    decreases w.queue.len(),
{
    if w.queue.len() == 0 {
        (None, w)
    } else {
        let addr = w.queue[0];
        let rest = SubmitView { queue: w.queue.skip(1), ..w };
        if w.tried.len() >= MAX_ATTEMPTS {
            (None, rest)
        } else if w.tried.contains(addr) {
            next_attempt(rest)
        } else {
            (Some(addr), SubmitView { tried: w.tried.push(addr), ..rest })
        }
    }
}

/// The way after a node named the leader: its address, if known and not tried
/// yet, is next.
pub open spec fn after_hint(w: SubmitView, directory: Addresses, leader: Option<NodeId>) -> SubmitView {
    match leader {
        None => w,
        Some(id) => match get(directory, id) {
            None => w,
            Some(addr) => if w.tried.contains(addr) {
                w
            } else {
                SubmitView { queue: seq![addr] + w.queue, ..w }
            },
        },
    }
}

/// The outcome that a reply gives, if it is the leader's, with the way after it.
pub open spec fn after_reply(
    w: SubmitView,
    directory: Addresses,
    cluster_id: ClusterId,
    from: ClusterId,
    body: Result<SubmitReplyView, Seq<char>>,
) -> (Option<ResultView>, SubmitView) {
    if from != cluster_id {
        (
            None,
            SubmitView {
                last_error: Some(
                    "reply from cluster "@ + hex(from as nat) + ", expected "@ + hex(
                        cluster_id as nat,
                    ),
                ),
                ..w
            },
        )
    } else {
        match body {
            Ok(SubmitReplyView::Outcome(outcome)) => (Some(outcome), w),
            Ok(SubmitReplyView::NotLeader { leader }) => (None, after_hint(w, directory, leader)),
            Ok(SubmitReplyView::Error(text)) => (
                None,
                SubmitView { last_error: Some(text), ..w },
            ),
            Err(detail) => (
                None,
                SubmitView { last_error: Some("undecodable reply: "@ + detail), ..w },
            ),
        }
    }
}

impl SubmitWalk {
    pub fn begin(targets: &Targets) -> (w: SubmitWalk)
        ensures
            w@ == (SubmitView {
                queue: targets@.candidates,
                tried: Seq::empty(),
                last_error: None,
            }),
    {
        let w = SubmitWalk {
            queue: copy_texts(&targets.candidates),
            tried: Vec::new(),
            last_error: None,
        };
        assert(w@.tried =~= Seq::<Seq<char>>::empty());
        w
    }

    /// The next address to try.
    pub fn next(&mut self) -> (r: Option<String>)
        ensures
            ({
                let (addr, w) = next_attempt(old(self)@);
                &&& final(self)@ == w
                &&& match r {
                    Some(s) => addr == Some(s@),
                    None => addr is None,
                }
            }),
    {
        let ghost start = self@;
        loop
            invariant
                next_attempt(self@) == next_attempt(start),
                start == old(self)@,
            decreases self.queue@.len(),
        {
            if self.queue.len() == 0 {
                return None;
            }
            let ghost before = self@;
            let ghost list = self.queue@;
            let addr = self.queue.remove(0);
            proof {
                assert(texts(self.queue@) =~= texts(list).skip(1));
                assert(texts(list)[0] == addr@);
                assert(self@ =~= (SubmitView { queue: before.queue.skip(1), ..before }));
            }
            if self.tried.len() >= MAX_ATTEMPTS {
                return None;
            }
            if !holds_text(&self.tried, &addr) {
                let ghost tried = texts(self.tried@);
                self.tried.push(addr.clone());
                assert(texts(self.tried@) =~= tried.push(addr@));
                return Some(addr);
            }
        }
    }

    /// The number of the attempt under way.
    pub fn attempt(&self) -> (n: u64)
        ensures
            n == self@.tried.len(),
    {
        self.tried.len() as u64
    }

    /// Follow a node's hint at the leader.
    fn on_not_leader(&mut self, targets: &Targets, leader: Option<NodeId>)
        ensures
            final(self)@ == after_hint(old(self)@, targets@.directory, leader),
    {
        if let Some(id) = leader {
            if let Some(addr) = targets.address(id) {
                if !holds_text(&self.tried, addr) {
                    let ghost before = texts(self.queue@);
                    self.queue.insert(0, addr.clone());
                    assert(texts(self.queue@) =~= seq![addr@] + before);
                }
            }
        }
    }

    /// Take in a member's reply: the leader's outcome is final, and anything else
    /// leads to the next attempt. `body` is what the reply holds, or why that
    /// cannot be read.
    pub fn on_reply(
        &mut self,
        targets: &Targets,
        cluster_id: ClusterId,
        reply: &Envelope,
        body: Result<SubmitReply, String>,
    ) -> (r: Option<MetaApplyResult>)
        ensures
            ({
                let (outcome, w) = after_reply(
                    old(self)@,
                    targets@.directory,
                    cluster_id,
                    reply.cluster_id,
                    match body {
                        Ok(b) => Ok(b@),
                        Err(e) => Err(e@),
                    },
                );
                &&& final(self)@ == w
                &&& match (r, outcome) {
                    (Some(a), Some(b)) => a@ == b,
                    (None, None) => true,
                    _ => false,
                }
            }),
    {
        if reply.cluster_id != cluster_id {
            let mut s = prefixed("reply from cluster ", to_hex(reply.cluster_id).as_str());
            s.append(", expected ");
            s.append(to_hex(cluster_id).as_str());
            self.last_error = Some(s);
            return None;
        }
        match body {
            Ok(SubmitReply::Outcome(outcome)) => Some(outcome),
            Ok(SubmitReply::NotLeader { leader }) => {
                self.on_not_leader(targets, leader);
                None
            },
            Ok(SubmitReply::Error(text)) => {
                self.last_error = Some(text);
                None
            },
            Err(detail) => {
                self.last_error = Some(prefixed("undecodable reply: ", detail.as_str()));
                None
            },
        }
    }

    /// Why no member took the command.
    pub fn failure(&self) -> (e: Error)
        ensures
            e@ == ErrorView::Raft(
                match self@.last_error {
                    Some(text) => text,
                    None => "no cluster member accepted the command"@,
                },
            ),
    {
        match &self.last_error {
            Some(text) => Error::Raft(text.clone()),
            None => Error::Raft("no cluster member accepted the command".to_owned()),
        }
    }
}

/// The request that registers a node with its cluster.
pub fn join_body(cfg: &NodeConfig) -> (b: JoinBody)
    ensures
        b.node_id == cfg.node_id,
        b.control_addr@ == cfg.control_addr@,
        b.bulk_addr@ == cfg.bulk_addr@,
{
    JoinBody {
        node_id: cfg.node_id,
        control_addr: cfg.control_addr.clone(),
        bulk_addr: cfg.bulk_addr.clone(),
    }
}

/// Why a status query to a member gave nothing.
pub fn status_mismatch(addr: &String) -> (s: String)
    ensures
        s@ == "unexpected routing reply from "@ + addr@,
{
    prefixed("unexpected routing reply from ", addr.as_str())
}

/// That a status reply could not be read.
pub fn status_unreadable(addr: &String, detail: &str) -> (s: String)
    ensures
        s@ == "undecodable routing reply from "@ + addr@ + ": "@ + detail@,
{
    let mut s = prefixed("undecodable routing reply from ", addr.as_str());
    s.append(": ");
    s.append(detail);
    s
}

/// Why no member answered a status query.
pub fn status_failure(last_error: Option<&String>) -> (e: Error)
    ensures
        e@ == ErrorView::Raft(
            match last_error {
                Some(text) => text@,
                None => "no cluster member answered a routing query"@,
            },
        ),
{
    match last_error {
        Some(text) => Error::Raft(text.clone()),
        None => Error::Raft("no cluster member answered a routing query".to_owned()),
    }
}

// -- laws --------------------------------------------------------------------

/// No address is tried twice, and no more than the allowed number are: each
/// attempt adds an address that was not tried before.
pub proof fn law_attempts_are_bounded(w: SubmitView)
    requires
        w.tried.no_duplicates(),
        w.tried.len() <= MAX_ATTEMPTS,
    ensures
        ({
            let (addr, next) = next_attempt(w);
            &&& next.tried.no_duplicates()
            &&& next.tried.len() <= MAX_ATTEMPTS
            &&& match addr {
                Some(a) => !w.tried.contains(a) && next.tried == w.tried.push(a),
                None => next.tried == w.tried,
            }
        }),
    decreases w.queue.len(),
{
    if w.queue.len() > 0 {
        let addr = w.queue[0];
        let rest = SubmitView { queue: w.queue.skip(1), ..w };
        if w.tried.len() < MAX_ATTEMPTS {
            if w.tried.contains(addr) {
                law_attempts_are_bounded(rest);
            } else {
                let t = w.tried.push(addr);
                assert forall|i: int, j: int| 0 <= i < j < t.len() implies t[i] != t[j] by {
                    if j == w.tried.len() {
                        assert(w.tried.contains(w.tried[i]));
                    }
                }
            }
        }
    }
}

/// A hint at a leader that was not tried yet is followed at once.
pub proof fn law_hints_are_followed(w: SubmitView, directory: Addresses, leader: NodeId, addr: Seq<char>)
    requires
        get(directory, leader) == Some(addr),
        !w.tried.contains(addr),
        w.tried.len() < MAX_ATTEMPTS,
    ensures
        next_attempt(after_hint(w, directory, Some(leader))).0 == Some(addr),
{
}

/// The next address to try is the first of the queue that was not tried yet; there is
/// none only where all were, or as many were tried as are allowed.
pub proof fn law_attempts_go_down_the_queue(w: SubmitView)
    requires
        w.tried.len() < MAX_ATTEMPTS,
    ensures
        ({
            let (addr, next) = next_attempt(w);
            match addr {
                Some(a) => exists|i: int|
                    {
                        &&& 0 <= i < w.queue.len()
                        &&& #[trigger] w.queue[i] == a
                        &&& !w.tried.contains(a)
                        &&& forall|j: int| 0 <= j < i ==> w.tried.contains(#[trigger] w.queue[j])
                        &&& next.queue == w.queue.skip(i + 1)
                    },
                None => next.queue.len() == 0 && forall|j: int|
                    0 <= j < w.queue.len() ==> w.tried.contains(#[trigger] w.queue[j]),
            }
        }),
    decreases w.queue.len(),
{
    if w.queue.len() > 0 {
        let first = w.queue[0];
        let rest = SubmitView { queue: w.queue.skip(1), ..w };
        if w.tried.contains(first) {
            law_attempts_go_down_the_queue(rest);
            let (addr, next) = next_attempt(rest);
            match addr {
                Some(a) => {
                    let i = choose|i: int|
                        {
                            &&& 0 <= i < rest.queue.len()
                            &&& #[trigger] rest.queue[i] == a
                            &&& !rest.tried.contains(a)
                            &&& forall|j: int|
                                0 <= j < i ==> rest.tried.contains(#[trigger] rest.queue[j])
                            &&& next.queue == rest.queue.skip(i + 1)
                        };
                    assert(w.queue[i + 1] == a);
                    assert forall|j: int| 0 <= j < i + 1 implies w.tried.contains(
                        #[trigger] w.queue[j],
                    ) by {
                        if j > 0 {
                            assert(rest.queue[j - 1] == w.queue[j]);
                        }
                    }
                    assert(rest.queue.skip(i + 1) =~= w.queue.skip(i + 2));
                },
                None => {
                    assert forall|j: int| 0 <= j < w.queue.len() implies w.tried.contains(
                        #[trigger] w.queue[j],
                    ) by {
                        if j > 0 {
                            assert(rest.queue[j - 1] == w.queue[j]);
                        }
                    }
                },
            }
        } else {
            assert(w.queue[0] == first);
        }
    }
}

/// A command is over if and only if this cluster answered with its outcome. A reply
/// that names a leader not tried yet puts its address first; any other reply leaves
/// the queue as it is.
pub proof fn law_replies_steer_the_submission(
    w: SubmitView,
    directory: Addresses,
    cluster_id: ClusterId,
    from: ClusterId,
    body: Result<SubmitReplyView, Seq<char>>,
    outcome: ResultView,
)
    ensures
        ({
            let (r, next) = after_reply(w, directory, cluster_id, from, body);
            let own = from == cluster_id;
            let leader = body->Ok_0->leader;
            let pointed = own && body is Ok && body->Ok_0 is NotLeader && leader is Some && get(
                directory,
                leader->0,
            ) is Some && !w.tried.contains(get(directory, leader->0)->0);
            &&& r == Some(outcome) <==> own && body == Ok::<SubmitReplyView, Seq<char>>(
                SubmitReplyView::Outcome(outcome),
            )
            &&& next.tried == w.tried
            &&& next.queue == if pointed {
                seq![get(directory, leader->0)->0] + w.queue
            } else {
                w.queue
            }
            &&& own && body is Ok && !(body->Ok_0 is Error) ==> next.last_error == w.last_error
            &&& !own || body is Err ==> next.last_error is Some
            &&& own && (body matches Ok(SubmitReplyView::Error(text))) ==> next.last_error == Some(
                body->Ok_0->Error_0,
            )
        }),
{
}

/// The address that is known of a node is the one of its last entry in the directory
/// that was read last; what the directory does not list stays known as before.
pub proof fn law_later_addresses_replace(known: Addresses, directory: Seq<NodeEntryView>, id: NodeId)
    ensures
        get(with_entries(known, directory), id) == match last_address(directory, id) {
            Some(addr) => Some(addr),
            None => get(known, id),
        },
    decreases directory.len(),
{
    if directory.len() > 0 {
        let init = directory.drop_last();
        law_later_addresses_replace(known, init, id);
        lemma_put(
            with_entries(known, init),
            directory.last().node_id,
            directory.last().control_addr,
        );
    }
}

/// The targets of a command are a pinned address first, then those of the contacts
/// that the directory knows, each once.
pub proof fn law_targets_are_seed_and_contacts(
    directory: Seq<DirEntryView>,
    seed: Option<Seq<char>>,
    contacts: Seq<NodeId>,
    addr: Seq<char>,
)
    ensures
        ({
            let t = targets_of(directory, seed, contacts);
            &&& t.candidates.no_duplicates()
            &&& t.candidates.contains(addr) <==> seed == Some(addr) || exists|i: int|
                0 <= i < contacts.len() && get(t.directory, #[trigger] contacts[i]) == Some(addr)
        }),
{
    let known = descriptor_addresses(directory);
    let list = pinned(seed) + resolved(known, contacts);
    lemma_merged(Seq::<Seq<char>>::empty(), list);
    lemma_resolved(known, contacts, addr);
    let rest = resolved(known, contacts);
    if rest.contains(addr) {
        let k = rest.index_of(addr);
        assert(list[pinned(seed).len() + k] == addr);
    }
    if seed == Some(addr) {
        assert(list[0] == addr);
    }
    if list.contains(addr) && seed != Some(addr) {
        let k = list.index_of(addr);
        assert(rest[k - pinned(seed).len()] == addr);
    }
}

proof fn lemma_resolved(known: Addresses, ids: Seq<NodeId>, addr: Seq<char>)
    ensures
        resolved(known, ids).contains(addr) <==> exists|i: int|
            0 <= i < ids.len() && get(known, #[trigger] ids[i]) == Some(addr),
    decreases ids.len(),
{
    if ids.len() > 0 {
        let init = ids.drop_last();
        lemma_resolved(known, init, addr);
        let head = resolved(known, init);
        let all = resolved(known, ids);
        if head.contains(addr) {
            let k = head.index_of(addr);
            assert(all[k] == addr);
            let i = choose|i: int|
                0 <= i < init.len() && get(known, #[trigger] init[i]) == Some(addr);
            assert(ids[i] == init[i]);
        }
        if all.contains(addr) && !head.contains(addr) {
            let k = all.index_of(addr);
            if k < head.len() {
                assert(head[k] == addr);
            }
            assert(get(known, ids[ids.len() - 1]) == Some(addr));
        }
        if exists|i: int| 0 <= i < ids.len() && get(known, #[trigger] ids[i]) == Some(addr) {
            let i = choose|i: int| 0 <= i < ids.len() && get(known, #[trigger] ids[i]) == Some(addr);
            if i < init.len() {
                assert(init[i] == ids[i]);
            } else {
                assert(all[head.len() as int] == addr);
            }
        }
    }
}

} // verus!
