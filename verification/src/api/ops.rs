//! Client operations, replies and the routing snapshot.
use crate::hashing::partition_of_key;
use crate::partition::state_machine::{ApplyResult, RejectReason};
use crate::search::SearchIndexRecord;
use crate::sets::{lemma_merged, merge_ids, merged};
use crate::text::{
    bracketed, byte_numbers, decimal, hex, id_numbers, optional, prefixed, quoted, quoted_of,
    to_bracketed, to_bracketed_bytes, to_decimal, to_hex, to_optional,
};
use crate::types::{
    entry_views, ClusterId, Consistency, DataRequest, DataRequestView, GroupId, HashSpec,
    KeyPresence, LogId, MutationResult, NodeDirectoryEntry, NodeEntryView, NodeId, Placement,
    PlacementView, Version,
};
use vstd::prelude::*;

verus! {

/// An operation that a client submits.
#[derive(Debug, Clone, PartialEq, Eq)]
pub enum ClientRequest {
    Mutate(DataRequest),
    Read { key: Vec<u8>, consistency: Consistency },
}

/// The content of a client's operation.
#[verifier::ext_equal]
pub enum ClientRequestView {
    Mutate(DataRequestView),
    Read { key: Seq<u8>, consistency: Consistency },
}

impl View for ClientRequest {
    type V = ClientRequestView;

    open spec fn view(&self) -> ClientRequestView {
        match self {
            ClientRequest::Mutate(req) => ClientRequestView::Mutate(req@),
            ClientRequest::Read { key, consistency } => ClientRequestView::Read {
                key: key@,
                consistency: *consistency,
            },
        }
    }
}

impl ClientRequestView {
    /// The key that the operation is for.
    pub open spec fn key(self) -> Seq<u8> {
        match self {
            ClientRequestView::Mutate(req) => req.op.key(),
            ClientRequestView::Read { key, .. } => key,
        }
    }
}

/// Whether a routing query may be passed on to another node. A node that asks
/// for itself sets `local_only`, so that the query does not go round.
#[derive(Debug, Clone, Copy, PartialEq, Eq, Structural)]
pub struct RoutingQuery {
    pub local_only: bool,
}

impl ClientRequest {
    /// The key that the operation is for.
    pub fn key(&self) -> (k: &[u8])
        ensures
            k@ == self@.key(),
    {
        match self {
            ClientRequest::Mutate(req) => req.op.key().as_slice(),
            ClientRequest::Read { key, .. } => key.as_slice(),
        }
    }
}

/// What a mutation did, as the client sees it.
#[derive(Debug, Clone, Copy, PartialEq, Eq, Structural)]
pub enum WriteReply {
    Applied { version: Version },
    ConditionFailed { current: KeyPresence },
    /// The entry was refused without a mutation.
    Rejected(RejectReason),
}

/// What a client sees of an applied entry: a fresh decision and a replayed one
/// look alike. An entry without a command is none of a client's.
pub open spec fn visible_reply(result: ApplyResult) -> WriteReply {
    match result {
        ApplyResult::Decided(MutationResult::Applied { version }) => WriteReply::Applied {
            version,
        },
        ApplyResult::Replayed(MutationResult::Applied { version }) => WriteReply::Applied {
            version,
        },
        ApplyResult::Decided(MutationResult::ConditionFailed { current }) => {
            WriteReply::ConditionFailed { current }
        },
        ApplyResult::Replayed(MutationResult::ConditionFailed { current }) => {
            WriteReply::ConditionFailed { current }
        },
        ApplyResult::Rejected(reason) => WriteReply::Rejected(reason),
        ApplyResult::NoOp => WriteReply::Rejected(RejectReason::Malformed),
    }
}

impl WriteReply {
    /// What a client sees of an applied entry.
    pub fn from_apply(result: ApplyResult) -> (r: WriteReply)
        ensures
            r == visible_reply(result),
    {
        match result {
            ApplyResult::Decided(MutationResult::Applied { version }) => WriteReply::Applied {
                version,
            },
            ApplyResult::Replayed(MutationResult::Applied { version }) => WriteReply::Applied {
                version,
            },
            ApplyResult::Decided(MutationResult::ConditionFailed { current }) => {
                WriteReply::ConditionFailed { current }
            },
            ApplyResult::Replayed(MutationResult::ConditionFailed { current }) => {
                WriteReply::ConditionFailed { current }
            },
            ApplyResult::Rejected(reason) => WriteReply::Rejected(reason),
            ApplyResult::NoOp => WriteReply::Rejected(RejectReason::Malformed),
        }
    }
}

impl WriteReply {
    /// The reply as messages show it.
    pub open spec fn spec_label(self) -> Seq<char> {
        match self {
            WriteReply::Applied { version } => "Applied { version: "@ + decimal(version as nat)
                + " }"@,
            WriteReply::ConditionFailed { current } => "ConditionFailed { current: "@
                + current.spec_label() + " }"@,
            WriteReply::Rejected(reason) => "Rejected("@ + reason.spec_label() + ")"@,
        }
    }

    /// The reply as messages show it.
    pub fn label(&self) -> (s: String)
        ensures
            s@ == self.spec_label(),
    {
        match self {
            WriteReply::Applied { version } => {
                let mut s = prefixed("Applied { version: ", to_decimal(*version as u128).as_str());
                s.append(" }");
                s
            },
            WriteReply::ConditionFailed { current } => {
                let mut s = prefixed("ConditionFailed { current: ", current.label().as_str());
                s.append(" }");
                s
            },
            WriteReply::Rejected(reason) => {
                let mut s = prefixed("Rejected(", reason.label().as_str());
                s.append(")");
                s
            },
        }
    }
}

/// A client cannot tell a retry from the first time: a replayed result reads as
/// the decision it repeats.
pub proof fn law_replays_read_alike(result: MutationResult)
    ensures
        visible_reply(ApplyResult::Decided(result)) == visible_reply(ApplyResult::Replayed(result)),
{
}

/// The reply to an applied entry says that a mutation was applied at a version
/// exactly when the entry's mutation result, fresh or replayed, says so, and that
/// its condition failed against what is stored exactly when the result does; an
/// entry that was refused is answered with its reason. Two mutation results are
/// answered alike only if they are the same.
pub proof fn law_replies_tell_the_result(
    result: ApplyResult,
    version: Version,
    current: KeyPresence,
    reason: RejectReason,
    a: MutationResult,
    b: MutationResult,
)
    ensures
        visible_reply(result) == (WriteReply::Applied { version }) <==> (result
            == ApplyResult::Decided(MutationResult::Applied { version }) || result
            == ApplyResult::Replayed(MutationResult::Applied { version })),
        visible_reply(result) == (WriteReply::ConditionFailed { current }) <==> (result
            == ApplyResult::Decided(MutationResult::ConditionFailed { current }) || result
            == ApplyResult::Replayed(MutationResult::ConditionFailed { current })),
        visible_reply(result) == WriteReply::Rejected(reason) <==> (result
            == ApplyResult::Rejected(reason) || (result == ApplyResult::NoOp && reason
            == RejectReason::Malformed)),
        visible_reply(ApplyResult::Decided(a)) == visible_reply(ApplyResult::Decided(b)) ==> a == b,
        visible_reply(ApplyResult::Decided(a)) == visible_reply(ApplyResult::Replayed(b)) <==> a
            == b,
{
}

/// Where else to ask. It is advice: the answering node decides what it serves.
#[derive(Debug, Clone, PartialEq, Eq)]
pub struct Redirect {
    pub cluster_id: ClusterId,
    pub leader: Option<NodeId>,
    /// Nodes that could serve the partition.
    pub candidates: Vec<NodeId>,
}

/// The content of a redirect.
#[verifier::ext_equal]
pub struct RedirectView {
    pub cluster_id: ClusterId,
    pub leader: Option<NodeId>,
    pub candidates: Seq<NodeId>,
}

impl View for Redirect {
    type V = RedirectView;

    open spec fn view(&self) -> RedirectView {
        RedirectView {
            cluster_id: self.cluster_id,
            leader: self.leader,
            candidates: self.candidates@,
        }
    }
}

/// A reply to a client's operation.
#[derive(Debug, Clone, PartialEq, Eq)]
pub enum ClientReply {
    Mutation(WriteReply),
    Value(Option<(Version, Vec<u8>)>),
    Redirect(Redirect),
    /// Refused before it was proposed, by what every replica knows alike: it can
    /// not have committed anywhere.
    Refused(String),
    /// An error with an uncertain outcome: the operation may have committed.
    Error(String),
}

/// The content of a reply.
#[verifier::ext_equal]
pub enum ClientReplyView {
    Mutation(WriteReply),
    Value(Option<(Version, Seq<u8>)>),
    Redirect(RedirectView),
    Refused(Seq<char>),
    Error(Seq<char>),
}

/// The content of a versioned value.
pub open spec fn value_view(v: Option<(Version, Vec<u8>)>) -> Option<(Version, Seq<u8>)> {
    match v {
        Some((version, bytes)) => Some((version, bytes@)),
        None => None,
    }
}

impl View for ClientReply {
    type V = ClientReplyView;

    open spec fn view(&self) -> ClientReplyView {
        match self {
            ClientReply::Mutation(w) => ClientReplyView::Mutation(*w),
            ClientReply::Value(v) => ClientReplyView::Value(value_view(*v)),
            ClientReply::Redirect(r) => ClientReplyView::Redirect(r@),
            ClientReply::Refused(text) => ClientReplyView::Refused(text@),
            ClientReply::Error(text) => ClientReplyView::Error(text@),
        }
    }
}

impl ClientReplyView {
    /// The reply as messages show it.
    pub open spec fn spec_label(self) -> Seq<char> {
        match self {
            ClientReplyView::Mutation(w) => "Mutation("@ + w.spec_label() + ")"@,
            ClientReplyView::Value(None) => "Value(None)"@,
            ClientReplyView::Value(Some((version, value))) => "Value(Some(("@ + decimal(
                version as nat,
            ) + ", "@ + bracketed(byte_numbers(value)) + ")))"@,
            ClientReplyView::Redirect(r) => "Redirect(Redirect { cluster_id: "@ + decimal(
                r.cluster_id as nat,
            ) + ", leader: "@ + optional(r.leader) + ", candidates: "@ + bracketed(
                id_numbers(r.candidates),
            ) + " })"@,
            ClientReplyView::Refused(text) => "Refused("@ + quoted_of(text) + ")"@,
            ClientReplyView::Error(text) => "Error("@ + quoted_of(text) + ")"@,
        }
    }
}

impl ClientReply {
    /// The reply as messages show it.
    pub fn label(&self) -> (s: String)
        ensures
            s@ == self@.spec_label(),
    {
        match self {
            ClientReply::Mutation(w) => {
                let mut s = prefixed("Mutation(", w.label().as_str());
                s.append(")");
                s
            },
            ClientReply::Value(None) => "Value(None)".to_owned(),
            ClientReply::Value(Some((version, value))) => {
                let mut s = prefixed("Value(Some((", to_decimal(*version as u128).as_str());
                s.append(", ");
                s.append(to_bracketed_bytes(value).as_str());
                s.append(")))");
                s
            },
            ClientReply::Redirect(r) => {
                let mut s = prefixed(
                    "Redirect(Redirect { cluster_id: ",
                    to_decimal(r.cluster_id).as_str(),
                );
                s.append(", leader: ");
                s.append(to_optional(r.leader).as_str());
                s.append(", candidates: ");
                s.append(to_bracketed(&r.candidates).as_str());
                s.append(" })");
                s
            },
            ClientReply::Refused(text) => {
                let mut s = prefixed("Refused(", quoted(text.as_str()).as_str());
                s.append(")");
                s
            },
            ClientReply::Error(text) => {
                let mut s = prefixed("Error(", quoted(text.as_str()).as_str());
                s.append(")");
                s
            },
        }
    }

    /// The cluster that a redirect comes from.
    pub fn redirect_cluster(&self) -> (r: Option<ClusterId>)
        ensures
            r == match self@ {
                ClientReplyView::Redirect(redirect) => Some(redirect.cluster_id),
                _ => None,
            },
    {
        match self {
            ClientReply::Redirect(r) => Some(r.cluster_id),
            _ => None,
        }
    }
}

/// A client's routing snapshot. It is advice: the serving gate decides.
#[derive(Debug, Clone, PartialEq, Eq)]
pub struct RoutingInfo {
    pub cluster_id: ClusterId,
    pub p: u16,
    pub hash_spec: HashSpec,
    pub directory: Vec<NodeDirectoryEntry>,
    /// The placement of each partition that is known.
    pub placements: Vec<(u16, Placement)>,
}

/// The content of a routing snapshot.
#[verifier::ext_equal]
pub struct RoutingView {
    pub cluster_id: ClusterId,
    pub p: u16,
    pub hash_spec: HashSpec,
    pub directory: Seq<NodeEntryView>,
    pub placements: Seq<(u16, PlacementView)>,
}

impl View for RoutingInfo {
    type V = RoutingView;

    open spec fn view(&self) -> RoutingView {
        RoutingView {
            cluster_id: self.cluster_id,
            p: self.p,
            hash_spec: self.hash_spec,
            directory: entry_views(self.directory@),
            placements: crate::placement::part_views(self.placements@),
        }
    }
}

/// The first entry of a node in a directory.
pub open spec fn directory_slot(directory: Seq<NodeEntryView>, node: NodeId) -> Option<int>
    decreases directory.len(),
{
    if directory.len() == 0 {
        None
    } else {
        match directory_slot(directory.drop_last(), node) {
            Some(i) => Some(i),
            None => if directory.last().node_id == node {
                Some(directory.len() - 1)
            } else {
                None
            },
        }
    }
}

/// What a directory says of a node.
pub open spec fn directory_entry(directory: Seq<NodeEntryView>, node: NodeId) -> Option<
    NodeEntryView,
> {
    match directory_slot(directory, node) {
        Some(i) => Some(directory[i]),
        None => None,
    }
}

proof fn lemma_directory_extends(directory: Seq<NodeEntryView>, node: NodeId, n: int, i: int)
    requires
        0 <= n <= directory.len(),
        directory_slot(directory.take(n), node) == Some(i),
    ensures
        directory_slot(directory, node) == Some(i),
    decreases directory.len() - n,
{
    if n == directory.len() {
        assert(directory.take(n) =~= directory);
    } else {
        assert(directory.take(n + 1).drop_last() =~= directory.take(n));
        lemma_directory_extends(directory, node, n + 1, i);
    }
}

/// The first entry of a node in a directory.
pub fn find_node(directory: &Vec<NodeDirectoryEntry>, node: NodeId) -> (r: Option<usize>)
    ensures
        match r {
            Some(i) => i < directory@.len() && directory_slot(entry_views(directory@), node)
                == Some(i as int) && directory@[i as int].node_id == node,
            None => directory_slot(entry_views(directory@), node) is None,
        },
{
    let ghost views = entry_views(directory@);
    let mut i: usize = 0;
    assert(views.take(0) =~= Seq::<NodeEntryView>::empty());
    while i < directory.len()
        invariant
            i <= directory@.len(),
            views == entry_views(directory@),
            directory_slot(views.take(i as int), node) is None,
        decreases directory@.len() - i,
    {
        proof {
            assert(views.take(i + 1).drop_last() =~= views.take(i as int));
            assert(views.take(i + 1).last() == views[i as int]);
        }
        if directory[i].node_id == node {
            proof {
                lemma_directory_extends(views, node, i + 1, i as int);
            }
            return Some(i);
        }
        i += 1;
    }
    assert(views.take(i as int) =~= views);
    None
}

impl RoutingView {
    /// The placement of a partition, if it is known.
    pub open spec fn placement(self, partition: u16) -> Option<PlacementView> {
        crate::assoc::get(self.placements, partition)
    }

    /// The nodes that could serve a partition: its voters, and those that a move
    /// in flight adds.
    pub open spec fn candidates(self, partition: u16) -> Seq<NodeId> {
        match self.placement(partition) {
            None => Seq::empty(),
            Some(p) => match p.move_plan {
                None => p.voters,
                Some(plan) => merged(p.voters, plan.target_voters),
            },
        }
    }

    /// Where the control plane of a node listens, if the directory knows it.
    pub open spec fn control_addr(self, node: NodeId) -> Option<Seq<char>> {
        match directory_entry(self.directory, node) {
            Some(e) => Some(e.control_addr),
            None => None,
        }
    }
}

impl RoutingInfo {
    /// Where the control plane of a node listens, if the directory knows it.
    pub fn control_addr(&self, node: NodeId) -> (r: Option<&str>)
        ensures
            match r {
                Some(addr) => self@.control_addr(node) == Some(addr@),
                None => self@.control_addr(node) is None,
            },
    {
        match find_node(&self.directory, node) {
            Some(i) => Some(self.directory[i].control_addr.as_str()),
            None => None,
        }
    }

    /// The placement of a partition, if it is known.
    pub fn placement(&self, partition: u16) -> (r: Option<&Placement>)
        ensures
            match r {
                Some(p) => self@.placement(partition) == Some(p@),
                None => self@.placement(partition) is None,
            },
    {
        let mut i: usize = 0;
        while i < self.placements.len() && self.placements[i].0 != partition
            invariant
                i <= self.placements@.len(),
                forall|j: int| 0 <= j < i ==> (#[trigger] self@.placements[j]).0 != partition,
            decreases self.placements@.len() - i,
        {
            i += 1;
        }
        proof {
            crate::assoc::lemma_slot_is(self@.placements, partition, i as int);
        }
        if i < self.placements.len() {
            Some(&self.placements[i].1)
        } else {
            None
        }
    }

    /// Where a partition's voters were last committed, if it is known.
    pub fn placement_log_id(&self, partition: u16) -> (r: Option<LogId>)
        ensures
            r == match self@.placement(partition) {
                Some(p) => Some(p.voters_log_id),
                None => None,
            },
    {
        match self.placement(partition) {
            Some(p) => Some(p.voters_log_id),
            None => None,
        }
    }

    /// The nodes that could serve a partition.
    pub fn candidates(&self, partition: u16) -> (out: Vec<NodeId>)
        ensures
            out@ == self@.candidates(partition),
    {
        match self.placement(partition) {
            None => Vec::new(),
            Some(p) => {
                let mut out: Vec<NodeId> = p.voters.clone();
                if let Some(plan) = &p.move_plan {
                    merge_ids(&mut out, &plan.target_voters);
                }
                out
            },
        }
    }
}

/// An answer to a catalog query.
#[derive(Debug, Clone, PartialEq, Eq)]
pub enum SearchCatalogReply {
    Record(Option<SearchIndexRecord>),
    Catalog(Vec<SearchIndexRecord>),
    /// The node does not lead the meta group.
    Unavailable,
    Error(String),
}

/// A shard's answer to a search.
#[derive(Debug, Clone, PartialEq, Eq)]
pub enum SearchShardReply<T> {
    Result(T),
    Redirect(Redirect),
    /// Refused before it ran.
    Refused(String),
    Error(String),
}

/// Why a well-formed frame was refused.
#[derive(Debug, Clone, Copy, PartialEq, Eq, Structural)]
pub enum RejectFrame {
    /// The frame is of another cluster.
    WrongCluster { expected: ClusterId, got: ClusterId },
    /// The key does not hash to the frame's partition.
    MispartitionedKey { expected: GroupId, got: GroupId },
    /// The frame's group is no data partition.
    NotADataPartition(GroupId),
    /// A client sent what only peers may.
    PeerControlOnClientPath,
}

impl RejectFrame {
    /// What the sender reads.
    pub open spec fn text(self) -> Seq<char> {
        match self {
            RejectFrame::WrongCluster { expected, got } => "wrong cluster id: expected "@ + hex(
                expected as nat,
            ) + ", got "@ + hex(got as nat),
            RejectFrame::MispartitionedKey { expected, got } => "key hashes to "@
                + expected.spec_label() + " but was sent to "@ + got.spec_label(),
            RejectFrame::NotADataPartition(g) => g.spec_label() + " is not a data partition"@,
            RejectFrame::PeerControlOnClientPath => "peer-control message on client dispatch path"@,
        }
    }

    /// What the sender reads.
    pub fn to_text(&self) -> (s: String)
        ensures
            s@ == self.text(),
    {
        match self {
            RejectFrame::WrongCluster { expected, got } => {
                let mut s = prefixed("wrong cluster id: expected ", to_hex(*expected).as_str());
                s.append(", got ");
                s.append(to_hex(*got).as_str());
                s
            },
            RejectFrame::MispartitionedKey { expected, got } => {
                let mut s = prefixed("key hashes to ", expected.label().as_str());
                s.append(" but was sent to ");
                s.append(got.label().as_str());
                s
            },
            RejectFrame::NotADataPartition(g) => {
                let mut s = g.label();
                s.append(" is not a data partition");
                s
            },
            RejectFrame::PeerControlOnClientPath => {
                "peer-control message on client dispatch path".to_owned()
            },
        }
    }
}

/// Whether a frame that names a group carries a key that hashes to a partition.
pub open spec fn partition_check(claimed: GroupId, actual: u16) -> Result<u16, RejectFrame> {
    match claimed {
        GroupId::Meta => Err(RejectFrame::NotADataPartition(claimed)),
        GroupId::Data(p) => if p == actual {
            Ok(p)
        } else {
            Err(RejectFrame::MispartitionedKey { expected: GroupId::Data(actual), got: claimed })
        },
    }
}

/// Hold the partition that a key hashes to against the frame's group.
pub fn match_partition(claimed: GroupId, actual: u16) -> (r: Result<u16, RejectFrame>)
    ensures
        r == partition_check(claimed, actual),
{
    match claimed {
        GroupId::Meta => Err(RejectFrame::NotADataPartition(claimed)),
        GroupId::Data(p) => {
            if p == actual {
                Ok(p)
            } else {
                Err(
                    RejectFrame::MispartitionedKey {
                        expected: GroupId::Data(actual),
                        got: claimed,
                    },
                )
            }
        },
    }
}

/// Check that a client's operation belongs on the frame's partition. A client
/// with a wrong partition count gets an error rather than a write into the wrong
/// partition.
pub fn check_partition(req: &ClientRequest, envelope_group: GroupId, p: u16, hash_spec: &HashSpec) -> (r:
    Result<u16, RejectFrame>)
    requires
        p > 0,
    ensures
        r == partition_check(envelope_group, partition_of_key(*hash_spec, req@.key(), p)),
{
    match_partition(envelope_group, hash_spec.partition_of(req.key(), p))
}

/// Every key has one partition: an operation on it is accepted there, and under
/// no other group.
pub proof fn law_keys_have_one_partition(
    hash_spec: HashSpec,
    key: Seq<u8>,
    p: u16,
    group: GroupId,
)
    ensures
        partition_check(group, partition_of_key(hash_spec, key, p)) is Ok <==> group
            == GroupId::Data(partition_of_key(hash_spec, key, p)),
{
}

/// The nodes that could serve a partition are its voters and, while a move is under
/// way, those it would take in; the voters come first, in their order. A partition
/// that is not placed has none.
pub proof fn law_candidates_serve_the_partition(info: RoutingView, partition: u16, x: NodeId)
    ensures
        match info.placement(partition) {
            None => info.candidates(partition).len() == 0,
            Some(p) => {
                &&& info.candidates(partition).contains(x) <==> p.voters.contains(x) || (p.move_plan
                    is Some && p.move_plan->0.target_voters.contains(x))
                &&& info.candidates(partition).len() >= p.voters.len()
                &&& info.candidates(partition).take(p.voters.len() as int) == p.voters
            },
        },
{
    if let Some(p) = info.placement(partition) {
        match p.move_plan {
            Some(plan) => {
                lemma_merged(p.voters, plan.target_voters);
            },
            None => {
                assert(p.voters.take(p.voters.len() as int) =~= p.voters);
            },
        }
    }
}

/// A directory's entry of a node is the first under its id.
pub proof fn law_directory_lookup(directory: Seq<NodeEntryView>, node: NodeId)
    ensures
        match directory_entry(directory, node) {
            Some(e) => exists|i: int|
                {
                    &&& 0 <= i < directory.len()
                    &&& #[trigger] directory[i] == e
                    &&& e.node_id == node
                    &&& forall|j: int| 0 <= j < i ==> (#[trigger] directory[j]).node_id != node
                },
            None => forall|j: int|
                0 <= j < directory.len() ==> (#[trigger] directory[j]).node_id != node,
        },
{
    lemma_directory_slot(directory, node);
}

proof fn lemma_directory_slot(directory: Seq<NodeEntryView>, node: NodeId)
    ensures
        match directory_slot(directory, node) {
            Some(i) => {
                &&& 0 <= i < directory.len()
                &&& directory[i].node_id == node
                &&& forall|j: int| 0 <= j < i ==> (#[trigger] directory[j]).node_id != node
            },
            None => forall|j: int|
                0 <= j < directory.len() ==> (#[trigger] directory[j]).node_id != node,
        },
    decreases directory.len(),
{
    if directory.len() > 0 {
        let init = directory.drop_last();
        lemma_directory_slot(init, node);
        assert forall|j: int| 0 <= j < init.len() implies #[trigger] directory[j] == init[j] by {}
    }
}

/// A frame's group is accepted if and only if it is the data partition that the key
/// hashes to.
pub proof fn law_keys_stay_in_their_partition(claimed: GroupId, actual: u16, p: u16)
    ensures
        partition_check(claimed, actual) == Ok::<u16, RejectFrame>(p) <==> claimed == GroupId::Data(
            actual,
        ) && p == actual,
        partition_check(claimed, actual) is Ok <==> claimed == GroupId::Data(actual),
        partition_check(claimed, actual) == Err::<u16, RejectFrame>(
            RejectFrame::NotADataPartition(claimed),
        ) <==> claimed == GroupId::Meta,
{
}

} // verus!
