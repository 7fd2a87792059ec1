//! Finding the authoritative node directory: only the meta leader's answer
//! counts; what followers say only tells where to ask next.
use crate::error::{Error, ErrorView};
use crate::sets::{lemma_merged, merged};
use crate::strings::{merge_texts, texts};
use crate::transport::{Envelope, MsgType};
use crate::types::{entry_views, ClusterId, NodeDirectoryEntry, NodeEntryView, NodeId};
use vstd::prelude::*;

verus! {

/// An answer to a directory query.
pub enum DirectoryQueryReply {
    /// The directory, read behind a confirmation of leadership.
    Value(Vec<NodeDirectoryEntry>),
    /// Not the leader; what it holds helps to find the leader.
    NotLeader { leader: Option<NodeId>, directory_hint: Vec<NodeDirectoryEntry> },
    Unavailable,
}

/// The content of an answer to a directory query.
#[verifier::ext_equal]
pub enum DirectoryReplyView {
    Value(Seq<NodeEntryView>),
    NotLeader { leader: Option<NodeId>, directory_hint: Seq<NodeEntryView> },
    Unavailable,
}

impl View for DirectoryQueryReply {
    type V = DirectoryReplyView;

    open spec fn view(&self) -> DirectoryReplyView {
        match self {
            DirectoryQueryReply::Value(d) => DirectoryReplyView::Value(entry_views(d@)),
            DirectoryQueryReply::NotLeader { leader, directory_hint } => {
                DirectoryReplyView::NotLeader {
                    leader: *leader,
                    directory_hint: entry_views(directory_hint@),
                }
            },
            DirectoryQueryReply::Unavailable => DirectoryReplyView::Unavailable,
        }
    }
}

/// What an answer leads to.
pub enum DirectoryStep {
    /// The directory.
    Found(Vec<NodeDirectoryEntry>),
    /// More addresses to ask; there may be none.
    Ask(Vec<String>),
}

/// The addresses that were asked.
pub struct DirectoryWalk {
    cluster_id: ClusterId,
    tried: Vec<String>,
}

/// The last address that a directory gives for a node.
pub open spec fn last_address(directory: Seq<NodeEntryView>, node: NodeId) -> Option<Seq<char>>
    decreases directory.len(),
{
    if directory.len() == 0 {
        None
    } else if directory.last().node_id == node {
        Some(directory.last().control_addr)
    } else {
        last_address(directory.drop_last(), node)
    }
}

/// Whether a directory lists the node of an entry once more behind it.
pub open spec fn listed_later(directory: Seq<NodeEntryView>, i: int) -> bool {
    exists|j: int|
        i < j < directory.len() && (#[trigger] directory[j]).node_id == directory[i].node_id
}

/// The addresses of the first `n` entries of a directory, without those of nodes
/// that it lists once more behind them.
pub open spec fn last_addresses(directory: Seq<NodeEntryView>, n: nat) -> Seq<Seq<char>>
    decreases n,
{
    if n == 0 {
        Seq::empty()
    } else {
        let head = last_addresses(directory, (n - 1) as nat);
        if listed_later(directory, n - 1) {
            head
        } else {
            head.push(directory[n - 1].control_addr)
        }
    }
}

/// Where a follower's answer points: to the leader it names, then to every node
/// it knows, each at the last address listed for it.
pub open spec fn pointed_to(leader: Option<NodeId>, hint: Seq<NodeEntryView>) -> Seq<Seq<char>> {
    let first = match leader {
        Some(id) => match last_address(hint, id) {
            Some(addr) => seq![addr],
            None => Seq::empty(),
        },
        None => Seq::empty(),
    };
    first + last_addresses(hint, hint.len())
}

fn fresh(tried: &mut Vec<String>, addrs: &Vec<String>) -> (out: Vec<String>)
    ensures
        texts(final(tried)@) == merged(texts(old(tried)@), texts(addrs@)),
        texts(final(tried)@) == texts(old(tried)@) + texts(out@),
{
    let ghost before = texts(tried@);
    let ghost list = tried@;
    let start: usize = tried.len();
    merge_texts(tried, addrs);
    proof {
        lemma_merged(before, texts(addrs@));
    }
    let mut out: Vec<String> = Vec::new();
    let mut i: usize = start;
    while i < tried.len()
        invariant
            start <= i <= tried@.len(),
            out@.len() == i - start,
            forall|k: int| 0 <= k < out@.len() ==> (#[trigger] out@[k])@ == tried@[start + k]@,
        decreases tried@.len() - i,
    {
        out.push(tried[i].clone());
        i += 1;
    }
    proof {
        let all = texts(tried@);
        assert(all =~= before + texts(out@)) by {
            assert(all.take(start as int) == before);
            assert forall|k: int| 0 <= k < all.len() implies all[k] == (before + texts(out@))[k] by {
                if k < start {
                    assert(all.take(start as int)[k] == all[k]);
                } else {
                    assert(out@[k - start]@ == tried@[k]@);
                }
            }
        }
    }
    out
}

impl DirectoryWalk {
    pub closed spec fn asked(&self) -> Seq<Seq<char>> {
        texts(self.tried@)
    }

    pub closed spec fn cluster(&self) -> ClusterId {
        self.cluster_id
    }

    /// Begin with the seeds: each is asked once.
    pub fn begin(cluster_id: ClusterId, seeds: &Vec<String>) -> (r: (DirectoryWalk, Vec<String>))
        ensures
            r.0.cluster() == cluster_id,
            r.0.asked() == merged(Seq::<Seq<char>>::empty(), texts(seeds@)),
            texts(r.1@) == r.0.asked(),
    {
        let mut tried: Vec<String> = Vec::new();
        assert(texts(tried@) =~= Seq::<Seq<char>>::empty());
        let ask = fresh(&mut tried, seeds);
        let w = DirectoryWalk { cluster_id, tried };
        assert(texts(ask@) =~= w.asked());
        (w, ask)
    }

    /// Whether an envelope can be an answer to this query.
    pub fn answers(&self, envelope: &Envelope) -> (yes: bool)
        ensures
            yes == (envelope.cluster_id == self.cluster() && envelope.msg_type is DirectoryQuery),
    {
        envelope.cluster_id == self.cluster_id && envelope.msg_type == MsgType::DirectoryQuery
    }

    /// Take in an answer. Only the leader's directory ends the walk.
    pub fn on_reply(&mut self, reply: DirectoryQueryReply) -> (step: DirectoryStep)
        ensures
            final(self).cluster() == old(self).cluster(),
            match (reply, step) {
                (DirectoryQueryReply::Value(directory), DirectoryStep::Found(out)) => entry_views(
                    out@,
                ) == entry_views(directory@) && final(self).asked() == old(self).asked(),
                (
                    DirectoryQueryReply::NotLeader { leader, directory_hint },
                    DirectoryStep::Ask(more),
                ) => final(self).asked() == merged(
                    old(self).asked(),
                    pointed_to(leader, entry_views(directory_hint@)),
                ) && final(self).asked() == old(self).asked() + texts(more@),
                (DirectoryQueryReply::Unavailable, DirectoryStep::Ask(more)) => more@.len() == 0
                    && final(self).asked() == old(self).asked(),
                _ => false,
            },
    {
        match reply {
            DirectoryQueryReply::Value(directory) => DirectoryStep::Found(directory),
            DirectoryQueryReply::Unavailable => DirectoryStep::Ask(Vec::new()),
            DirectoryQueryReply::NotLeader { leader, directory_hint } => {
                let ghost views = entry_views(directory_hint@);
                let mut addrs: Vec<String> = Vec::new();
                if let Some(id) = leader {
                    if let Some(addr) = find_last(&directory_hint, id) {
                        addrs.push(addr);
                    }
                }
                let ghost first = texts(addrs@);
                let mut i: usize = 0;
                proof {
                    assert(first + last_addresses(views, 0) =~= first);
                }
                while i < directory_hint.len()
                    invariant
                        i <= directory_hint@.len(),
                        views == entry_views(directory_hint@),
                        texts(addrs@) == first + last_addresses(views, i as nat),
                    decreases directory_hint@.len() - i,
                {
                    let ghost before = texts(addrs@);
                    if !is_listed_later(&directory_hint, i) {
                        addrs.push(directory_hint[i].control_addr.clone());
                        proof {
                            assert(texts(addrs@) =~= before.push(views[i as int].control_addr));
                        }
                    }
                    proof {
                        assert(texts(addrs@) =~= first + last_addresses(views, (i + 1) as nat));
                    }
                    i += 1;
                }
                proof {
                    assert(texts(addrs@) =~= pointed_to(leader, views));
                }
                DirectoryStep::Ask(fresh(&mut self.tried, &addrs))
            },
        }
    }
}

fn is_listed_later(directory: &Vec<NodeDirectoryEntry>, i: usize) -> (yes: bool)
    requires
        i < directory@.len(),
    ensures
        yes == listed_later(entry_views(directory@), i as int),
{
    let ghost views = entry_views(directory@);
    let total: usize = directory.len();
    let mut j: usize = i + 1;
    while j < total
        invariant
            i < j <= total,
            total == directory@.len(),
            views == entry_views(directory@),
            forall|k: int| i < k < j ==> (#[trigger] views[k]).node_id != views[i as int].node_id,
        decreases total - j,
    {
        if directory[j].node_id == directory[i].node_id {
            assert(views[j as int].node_id == views[i as int].node_id);
            return true;
        }
        j += 1;
    }
    false
}

fn find_last(directory: &Vec<NodeDirectoryEntry>, node: NodeId) -> (r: Option<String>)
    ensures
        match r {
            Some(addr) => last_address(entry_views(directory@), node) == Some(addr@),
            None => last_address(entry_views(directory@), node) is None,
        },
{
    let ghost views = entry_views(directory@);
    let mut i: usize = directory.len();
    assert(views.take(i as int) =~= views);
    while i > 0
        invariant
            i <= directory@.len(),
            views == entry_views(directory@),
            last_address(views, node) == last_address(views.take(i as int), node),
        decreases i,
    {
        let entry = &directory[i - 1];
        proof {
            assert(views.take(i as int).last() == entry@);
            assert(views.take(i as int).drop_last() =~= views.take(i - 1));
        }
        if entry.node_id == node {
            return Some(entry.control_addr.clone());
        }
        i -= 1;
    }
    None
}

/// Decide whether the endpoint that an authoritative directory lists for a node
/// replaces the one known: an endpoint known under no incarnation is only a hint,
/// and another is replaced by a later incarnation's.
pub fn replaces_endpoint(known: Option<u64>, listed: u64) -> (yes: bool)
    ensures
        yes == (known matches Some(k) ==> listed > k),
{
    match known {
        Some(k) => listed > k,
        None => true,
    }
}

/// Why no directory was found.
pub fn no_authority() -> (e: Error)
    ensures
        e@ == ErrorView::Raft("no meta leader returned an authoritative directory"@),
{
    Error::Raft("no meta leader returned an authoritative directory".to_owned())
}

/// That the search for a directory took too long.
pub fn directory_timeout() -> (e: Error)
    ensures
        e@ == ErrorView::Raft("authoritative directory query timed out"@),
{
    Error::Raft("authoritative directory query timed out".to_owned())
}

/// No address is asked twice.
pub proof fn law_addresses_are_asked_once(asked: Seq<Seq<char>>, more: Seq<Seq<char>>)
    requires
        asked.no_duplicates(),
    ensures
        merged(asked, more).no_duplicates(),
        merged(asked, more).take(asked.len() as int) == asked,
{
    lemma_merged(asked, more);
}

/// A follower's answer leads to the leader it names, unless that was asked
/// already, and to every node it knows.
pub proof fn law_followers_point_on(
    asked: Seq<Seq<char>>,
    leader: NodeId,
    hint: Seq<NodeEntryView>,
    addr: Seq<char>,
)
    requires
        last_address(hint, leader) == Some(addr),
    ensures
        merged(asked, pointed_to(Some(leader), hint)).contains(addr),
        !asked.contains(addr) ==> merged(asked, pointed_to(Some(leader), hint))[asked.len() as int]
            == addr,
{
    let list = pointed_to(Some(leader), hint);
    assert(list[0] == addr);
    lemma_merged(asked, list);
    assert(list.contains(addr));
    if !asked.contains(addr) {
        lemma_first_fresh(asked, list);
    }
}

/// A follower's answer points to every node that it knows, at the last address
/// that it lists for the node, and nowhere else.
pub proof fn law_nodes_are_asked_at_their_last_address(
    leader: Option<NodeId>,
    hint: Seq<NodeEntryView>,
    addr: Seq<char>,
)
    ensures
        pointed_to(leader, hint).contains(addr) <==> exists|id: NodeId|
            #[trigger] last_address(hint, id) == Some(addr),
{
    let n = hint.len();
    let list = last_addresses(hint, n);
    let all = pointed_to(leader, hint);
    lemma_last_addresses(hint, n, addr);
    if all.contains(addr) {
        let k = all.index_of(addr);
        if k < all.len() - list.len() {
            assert(last_address(hint, leader->0) == Some(addr));
        } else {
            assert(list[k - (all.len() - list.len())] == addr);
            let i = choose|i: int|
                0 <= i < n && (#[trigger] hint[i]).control_addr == addr && !listed_later(hint, i);
            lemma_last_entry(hint, i);
        }
    }
    if exists|id: NodeId| #[trigger] last_address(hint, id) == Some(addr) {
        let id = choose|id: NodeId| #[trigger] last_address(hint, id) == Some(addr);
        lemma_entry_of(hint, id);
        assert(list.contains(addr));
        let k = list.index_of(addr);
        assert(all[all.len() - list.len() + k] == addr);
    }
}

proof fn lemma_last_addresses(hint: Seq<NodeEntryView>, n: nat, addr: Seq<char>)
    requires
        n <= hint.len(),
    ensures
        last_addresses(hint, n).contains(addr) <==> exists|i: int|
            0 <= i < n && (#[trigger] hint[i]).control_addr == addr && !listed_later(hint, i),
    decreases n,
{
    if n > 0 {
        let m = (n - 1) as nat;
        let head = last_addresses(hint, m);
        let list = last_addresses(hint, n);
        lemma_last_addresses(hint, m, addr);
        if head.contains(addr) {
            let k = head.index_of(addr);
            assert(list[k] == addr);
        }
        if !listed_later(hint, n - 1) {
            assert(list[head.len() as int] == hint[n - 1].control_addr);
        }
        if list.contains(addr) && !head.contains(addr) {
            let k = list.index_of(addr);
            if k < head.len() {
                assert(head[k] == addr);
            }
            assert(hint[n - 1].control_addr == addr);
        }
    }
}

proof fn lemma_last_entry(hint: Seq<NodeEntryView>, i: int)
    requires
        0 <= i < hint.len(),
        !listed_later(hint, i),
    ensures
        last_address(hint, hint[i].node_id) == Some(hint[i].control_addr),
    decreases hint.len(),
{
    if i < hint.len() - 1 {
        let head = hint.drop_last();
        assert(hint[hint.len() - 1].node_id != hint[i].node_id);
        assert(!listed_later(head, i)) by {
            if listed_later(head, i) {
                let j = choose|j: int|
                    i < j < head.len() && (#[trigger] head[j]).node_id == head[i].node_id;
                assert(hint[j].node_id == hint[i].node_id);
            }
        }
        lemma_last_entry(head, i);
    }
}

proof fn lemma_entry_of(hint: Seq<NodeEntryView>, id: NodeId) -> (i: int)
    requires
        last_address(hint, id) is Some,
    ensures
        0 <= i < hint.len(),
        hint[i].node_id == id,
        !listed_later(hint, i),
        last_address(hint, id) == Some(hint[i].control_addr),
    decreases hint.len(),
{
    if hint.last().node_id == id {
        hint.len() - 1
    } else {
        let head = hint.drop_last();
        let i = lemma_entry_of(head, id);
        assert(!listed_later(hint, i)) by {
            if listed_later(hint, i) {
                let j = choose|j: int|
                    i < j < hint.len() && (#[trigger] hint[j]).node_id == hint[i].node_id;
                assert(j < head.len());
                assert(head[j].node_id == head[i].node_id);
            }
        }
        i
    }
}

proof fn lemma_first_fresh(asked: Seq<Seq<char>>, list: Seq<Seq<char>>)
    requires
        list.len() > 0,
        !asked.contains(list[0]),
    ensures
        merged(asked, list).len() > asked.len(),
        merged(asked, list)[asked.len() as int] == list[0],
    decreases list.len(),
{
    let head = list.drop_last();
    if list.len() == 1 {
        assert(head =~= Seq::<Seq<char>>::empty());
        assert(merged(asked, head) == asked);
        assert(list.last() == list[0]);
    } else {
        assert(head[0] == list[0]);
        lemma_first_fresh(asked, head);
    }
}

/// The address of a node is that of its last entry.
pub proof fn law_last_entry_counts(directory: Seq<NodeEntryView>, node: NodeId)
    ensures
        match last_address(directory, node) {
            Some(addr) => exists|i: int|
                {
                    &&& 0 <= i < directory.len()
                    &&& (#[trigger] directory[i]).node_id == node
                    &&& directory[i].control_addr == addr
                    &&& forall|j: int|
                        i < j < directory.len() ==> (#[trigger] directory[j]).node_id != node
                },
            None => forall|j: int|
                0 <= j < directory.len() ==> (#[trigger] directory[j]).node_id != node,
        },
    decreases directory.len(),
{
    if directory.len() > 0 {
        let init = directory.drop_last();
        assert(directory[directory.len() - 1] == directory.last());
        if directory.last().node_id != node {
            law_last_entry_counts(init, node);
            match last_address(init, node) {
                Some(addr) => {
                    let i = choose|i: int|
                        {
                            &&& 0 <= i < init.len()
                            &&& (#[trigger] init[i]).node_id == node
                            &&& init[i].control_addr == addr
                            &&& forall|j: int|
                                i < j < init.len() ==> (#[trigger] init[j]).node_id != node
                        };
                    assert(directory[i] == init[i]);
                    assert forall|j: int| i < j < directory.len() implies (
                    #[trigger] directory[j]).node_id != node by {
                        if j < init.len() {
                            assert(init[j] == directory[j]);
                        }
                    }
                },
                None => {
                    assert forall|j: int| 0 <= j < directory.len() implies (
                    #[trigger] directory[j]).node_id != node by {
                        if j < init.len() {
                            assert(init[j] == directory[j]);
                        }
                    }
                },
            }
        }
    }
}

} // verus!
