//! The data group's rules: put and delete, numeric and create-only conditions,
//! and durable per-client idempotency.
//!
//! A decision is a function of the committed command, its log index and the
//! group's records: no clock, no randomness, no node-local state.
use crate::assoc::{get, keys_distinct, lemma_put, lemma_slot_is, put, slot};
use crate::bytes::{le_bytes, lemma_capacities};
use crate::codec::{
    decode, encode, lemma_content_bytes, lemma_list_unique, lemma_number_unique, lemma_wire_bytes,
    Wire,
};
use crate::error::Error;
use crate::hashing::{hash_128, xxh3_128_of};
use crate::keyspace::{seq_bytes, seq_key, user_bytes, user_key};
use crate::partition::table::{
    after_changes, same_bytes, state_mutation_views, Records, StateMutation, StateMutationView,
    StateRead, StateTable,
};
use crate::text::{decimal, prefixed, to_decimal};
use crate::types::{
    ClientId, DataOp, DataOpView, DataRequest, DataRequestView, GroupId, IfVersion, KeyPresence,
    LogId, MutationResult, Sequence, Version,
};
use vstd::prelude::*;

verus! {

/// One key's durable record: its value and the log index of its last mutation.
struct KeyRecord {
    version: Version,
    value: Vec<u8>,
}

/// The content of a key record.
#[verifier::ext_equal]
pub struct KeyView {
    pub version: Version,
    pub value: Seq<u8>,
}

/// A client's idempotency record: the highest decided sequence, the digest of
/// that command and its result.
#[verifier::ext_equal]
#[derive(Clone, Copy)]
pub struct SeqRecord {
    pub highest: Sequence,
    pub digest: u128,
    pub result: MutationResult,
}

/// The outcome of applying one committed entry.
#[derive(Debug, Clone, Copy, PartialEq, Eq, Structural)]
pub enum ApplyResult {
    /// The next sequence, freshly decided.
    Decided(MutationResult),
    /// The highest sequence again with the same command: the stored result.
    Replayed(MutationResult),
    /// A deterministic refusal that leaves the client's record untouched.
    Rejected(RejectReason),
    /// An entry that carries no command.
    NoOp,
}

impl ApplyResult {
    /// The client-visible mutation result, if there is one.
    pub fn mutation(&self) -> (r: Option<MutationResult>)
        ensures
            r == match *self {
                ApplyResult::Decided(m) => Some(m),
                ApplyResult::Replayed(m) => Some(m),
                ApplyResult::Rejected(_) => None,
                ApplyResult::NoOp => None,
            },
    {
        match self {
            ApplyResult::Decided(m) => Some(*m),
            ApplyResult::Replayed(m) => Some(*m),
            ApplyResult::Rejected(_) => None,
            ApplyResult::NoOp => None,
        }
    }
}

/// Why a committed entry was refused.
#[derive(Debug, Clone, Copy, PartialEq, Eq, Structural)]
pub enum RejectReason {
    /// A hole in the client's stream.
    SequenceGap { expected: Sequence, got: Sequence },
    /// A sequence below the highest, or one never decided.
    StaleSequence { highest: Sequence, got: Sequence },
    /// The idempotency key was reused for another command.
    SequenceMismatch,
    /// A command that is wrong in itself.
    Malformed,
    /// The client has no sequence left.
    SequenceExhausted,
}

impl RejectReason {
    /// The reason as messages show it.
    pub open spec fn spec_label(self) -> Seq<char> {
        match self {
            RejectReason::SequenceGap { expected, got } => "SequenceGap { expected: "@ + decimal(
                expected as nat,
            ) + ", got: "@ + decimal(got as nat) + " }"@,
            RejectReason::StaleSequence { highest, got } => "StaleSequence { highest: "@ + decimal(
                highest as nat,
            ) + ", got: "@ + decimal(got as nat) + " }"@,
            RejectReason::SequenceMismatch => "SequenceMismatch"@,
            RejectReason::Malformed => "Malformed"@,
            RejectReason::SequenceExhausted => "SequenceExhausted"@,
        }
    }

    /// The reason as messages show it.
    pub fn label(&self) -> (s: String)
        ensures
            s@ == self.spec_label(),
    {
        match self {
            RejectReason::SequenceGap { expected, got } => {
                let mut s = prefixed(
                    "SequenceGap { expected: ",
                    to_decimal(*expected as u128).as_str(),
                );
                s.append(", got: ");
                s.append(to_decimal(*got as u128).as_str());
                s.append(" }");
                s
            },
            RejectReason::StaleSequence { highest, got } => {
                let mut s = prefixed(
                    "StaleSequence { highest: ",
                    to_decimal(*highest as u128).as_str(),
                );
                s.append(", got: ");
                s.append(to_decimal(*got as u128).as_str());
                s.append(" }");
                s
            },
            RejectReason::SequenceMismatch => "SequenceMismatch".to_owned(),
            RejectReason::Malformed => "Malformed".to_owned(),
            RejectReason::SequenceExhausted => "SequenceExhausted".to_owned(),
        }
    }
}

// -- serialized forms --------------------------------------------------------

/// A byte string with its length before it.
pub open spec fn framed(s: Seq<u8>) -> Seq<u8> {
    le_bytes(s.len(), 8) + s
}

/// The serialized form of a key record.
pub open spec fn key_wire(r: KeyView) -> Seq<u8> {
    le_bytes(r.version as nat, 8) + framed(r.value)
}

/// The serialized form of a mutation result.
pub open spec fn result_wire(r: MutationResult) -> Seq<u8> {
    match r {
        MutationResult::Applied { version } => le_bytes(0, 4) + le_bytes(version as nat, 8),
        MutationResult::ConditionFailed { current: KeyPresence::Present { version } } => le_bytes(
            1,
            4,
        ) + (le_bytes(0, 4) + le_bytes(version as nat, 8)),
        MutationResult::ConditionFailed { current: KeyPresence::Absent } => le_bytes(1, 4) + (
        le_bytes(1, 4) + Seq::<u8>::empty()),
    }
}

/// The serialized form of a sequence record.
pub open spec fn seq_wire(r: SeqRecord) -> Seq<u8> {
    le_bytes(r.highest as nat, 8) + le_bytes(r.digest as nat, 16) + result_wire(r.result)
}

/// The serialized form of a version condition.
pub open spec fn condition_wire(c: Option<IfVersion>) -> Seq<u8> {
    match c {
        None => seq![0u8],
        Some(IfVersion::Number(v)) => seq![1u8] + (le_bytes(0, 4) + le_bytes(v as nat, 8)),
        Some(IfVersion::Absent) => seq![1u8] + (le_bytes(1, 4) + Seq::<u8>::empty()),
    }
}

/// The canonical bytes of an operation, which its digest is taken over.
pub open spec fn op_wire(op: DataOpView) -> Seq<u8> {
    match op {
        DataOpView::Put { key, value, if_version } => le_bytes(0, 4) + (framed(key) + framed(value)
            + condition_wire(if_version)),
        DataOpView::Delete { key, if_version } => le_bytes(1, 4) + (framed(key) + condition_wire(
            if_version,
        )),
    }
}

/// The digest of an operation.
pub open spec fn op_digest(op: DataOpView) -> u128 {
    xxh3_128_of(op_wire(op))
}

/// The key record that stored bytes begin with, if they do.
pub open spec fn key_record_in(bytes: Seq<u8>) -> Option<KeyView> {
    if exists|r: KeyView| r.value.len() <= usize::MAX && (#[trigger] key_wire(r)).is_prefix_of(bytes) {
        Some(
            choose|r: KeyView|
                r.value.len() <= usize::MAX && (#[trigger] key_wire(r)).is_prefix_of(bytes),
        )
    } else {
        None
    }
}

/// The sequence record that stored bytes begin with, if they do.
pub open spec fn seq_record_in(bytes: Seq<u8>) -> Option<SeqRecord> {
    if exists|r: SeqRecord| (#[trigger] seq_wire(r)).is_prefix_of(bytes) {
        Some(choose|r: SeqRecord| (#[trigger] seq_wire(r)).is_prefix_of(bytes))
    } else {
        None
    }
}

proof fn lemma_prefix_split(p: Seq<u8>, s: Seq<u8>)
    requires
        p.is_prefix_of(s),
    ensures
        s == p + s.skip(p.len() as int),
{
    assert(s =~= p + s.skip(p.len() as int));
}

proof fn lemma_is_prefix(p: Seq<u8>, rest: Seq<u8>)
    ensures
        p.is_prefix_of(p + rest),
{
    assert((p + rest).subrange(0, p.len() as int) =~= p);
}

/// Bytes that begin with two key records begin with the same one.
proof fn lemma_key_unique(a: KeyView, b: KeyView, s: Seq<u8>)
    requires
        a.value.len() <= usize::MAX,
        b.value.len() <= usize::MAX,
        key_wire(a).is_prefix_of(s),
        key_wire(b).is_prefix_of(s),
    ensures
        a == b,
{
    lemma_capacities();
    lemma_prefix_split(key_wire(a), s);
    lemma_prefix_split(key_wire(b), s);
    let x = s.skip(key_wire(a).len() as int);
    let y = s.skip(key_wire(b).len() as int);
    assert(s =~= le_bytes(a.version as nat, 8) + (framed(a.value) + x));
    assert(s =~= le_bytes(b.version as nat, 8) + (framed(b.value) + y));
    lemma_number_unique(
        a.version as nat,
        b.version as nat,
        8,
        framed(a.value) + x,
        framed(b.value) + y,
    );
    lemma_wire_bytes(a.value);
    lemma_wire_bytes(b.value);
    lemma_list_unique(a.value, b.value, x, y);
}

/// Bytes that begin with two mutation results begin with the same one.
proof fn lemma_result_unique(a: MutationResult, b: MutationResult, x: Seq<u8>, y: Seq<u8>)
    requires
        result_wire(a) + x == result_wire(b) + y,
    ensures
        a == b,
{
    lemma_capacities();
    let ta = if a is Applied {
        0nat
    } else {
        1
    };
    let tb = if b is Applied {
        0nat
    } else {
        1
    };
    let ra = result_tail(a);
    let rb = result_tail(b);
    assert(result_wire(a) + x =~= le_bytes(ta, 4) + (ra + x));
    assert(result_wire(b) + y =~= le_bytes(tb, 4) + (rb + y));
    lemma_number_unique(ta, tb, 4, ra + x, rb + y);
    match (a, b) {
        (MutationResult::Applied { version: v }, MutationResult::Applied { version: w }) => {
            lemma_number_unique(v as nat, w as nat, 8, x, y);
        },
        (
            MutationResult::ConditionFailed { current: p },
            MutationResult::ConditionFailed { current: q },
        ) => {
            let tp = if p is Present {
                0nat
            } else {
                1
            };
            let tq = if q is Present {
                0nat
            } else {
                1
            };
            let sp = presence_tail(p);
            let sq = presence_tail(q);
            assert(ra + x =~= le_bytes(tp, 4) + (sp + x));
            assert(rb + y =~= le_bytes(tq, 4) + (sq + y));
            lemma_number_unique(tp, tq, 4, sp + x, sq + y);
            match (p, q) {
                (KeyPresence::Present { version: v }, KeyPresence::Present { version: w }) => {
                    lemma_number_unique(v as nat, w as nat, 8, x, y);
                },
                _ => {},
            }
        },
        _ => {},
    }
}

spec fn presence_tail(p: KeyPresence) -> Seq<u8> {
    match p {
        KeyPresence::Present { version } => le_bytes(version as nat, 8),
        KeyPresence::Absent => Seq::empty(),
    }
}

spec fn result_tail(r: MutationResult) -> Seq<u8> {
    match r {
        MutationResult::Applied { version } => le_bytes(version as nat, 8),
        MutationResult::ConditionFailed { current: KeyPresence::Present { version } } => le_bytes(
            0,
            4,
        ) + le_bytes(version as nat, 8),
        MutationResult::ConditionFailed { current: KeyPresence::Absent } => le_bytes(1, 4)
            + Seq::<u8>::empty(),
    }
}

/// Bytes that begin with two sequence records begin with the same one.
proof fn lemma_seq_unique(a: SeqRecord, b: SeqRecord, s: Seq<u8>)
    requires
        seq_wire(a).is_prefix_of(s),
        seq_wire(b).is_prefix_of(s),
    ensures
        a == b,
{
    lemma_capacities();
    lemma_prefix_split(seq_wire(a), s);
    lemma_prefix_split(seq_wire(b), s);
    let x = s.skip(seq_wire(a).len() as int);
    let y = s.skip(seq_wire(b).len() as int);
    let ax = le_bytes(a.digest as nat, 16) + (result_wire(a.result) + x);
    let by = le_bytes(b.digest as nat, 16) + (result_wire(b.result) + y);
    assert(s =~= le_bytes(a.highest as nat, 8) + ax);
    assert(s =~= le_bytes(b.highest as nat, 8) + by);
    lemma_number_unique(a.highest as nat, b.highest as nat, 8, ax, by);
    lemma_number_unique(
        a.digest as nat,
        b.digest as nat,
        16,
        result_wire(a.result) + x,
        result_wire(b.result) + y,
    );
    lemma_result_unique(a.result, b.result, x, y);
}

/// A stored key record is read back.
pub proof fn law_key_record_round_trip(r: KeyView)
    requires
        r.value.len() <= usize::MAX,
    ensures
        key_record_in(key_wire(r)) == Some(r),
{
    let s = key_wire(r);
    assert(s =~= s + Seq::<u8>::empty());
    lemma_is_prefix(s, Seq::empty());
    assert(key_wire(r).is_prefix_of(s));
    lemma_key_unique(r, key_record_in(s)->0, s);
}

/// A stored sequence record is read back.
pub proof fn law_seq_record_round_trip(r: SeqRecord)
    ensures
        seq_record_in(seq_wire(r)) == Some(r),
{
    let s = seq_wire(r);
    assert(s =~= s + Seq::<u8>::empty());
    lemma_is_prefix(s, Seq::empty());
    assert(seq_wire(r).is_prefix_of(s));
    lemma_seq_unique(r, seq_record_in(s)->0, s);
}

proof fn lemma_condition_unique(
    a: Option<IfVersion>,
    b: Option<IfVersion>,
)
    requires
        condition_wire(a) == condition_wire(b),
    ensures
        a == b,
{
    lemma_capacities();
    assert(condition_wire(a)[0] == if a is Some {
        1u8
    } else {
        0u8
    });
    assert(condition_wire(b)[0] == if b is Some {
        1u8
    } else {
        0u8
    });
    match (a, b) {
        (Some(p), Some(q)) => {
            let tp = if p is Number {
                0nat
            } else {
                1
            };
            let tq = if q is Number {
                0nat
            } else {
                1
            };
            let sp = condition_tail(p);
            let sq = condition_tail(q);
            assert(condition_wire(a).skip(1) =~= le_bytes(tp, 4) + sp);
            assert(condition_wire(b).skip(1) =~= le_bytes(tq, 4) + sq);
            lemma_number_unique(tp, tq, 4, sp, sq);
            match (p, q) {
                (IfVersion::Number(v), IfVersion::Number(w)) => {
                    assert(sp =~= le_bytes(v as nat, 8) + Seq::<u8>::empty());
                    assert(sq =~= le_bytes(w as nat, 8) + Seq::<u8>::empty());
                    lemma_number_unique(v as nat, w as nat, 8, Seq::empty(), Seq::empty());
                },
                _ => {},
            }
        },
        _ => {},
    }
}

spec fn condition_tail(c: IfVersion) -> Seq<u8> {
    match c {
        IfVersion::Number(v) => le_bytes(v as nat, 8),
        IfVersion::Absent => Seq::empty(),
    }
}

/// Whether an operation's strings can exist in memory.
pub open spec fn op_fits(op: DataOpView) -> bool {
    match op {
        DataOpView::Put { key, value, .. } => key.len() <= usize::MAX && value.len() <= usize::MAX,
        DataOpView::Delete { key, .. } => key.len() <= usize::MAX,
    }
}

/// Two operations have the same canonical bytes only if they are the same, so a
/// digest is taken over exactly what must match.
pub proof fn law_canonical_bytes_identify_operation(a: DataOpView, b: DataOpView)
    requires
        op_fits(a),
        op_fits(b),
        op_wire(a) == op_wire(b),
    ensures
        a == b,
{
    lemma_capacities();
    lemma_wire_bytes(a.key());
    lemma_wire_bytes(b.key());
    match (a, b) {
        (
            DataOpView::Put { key: k, value: v, if_version: c },
            DataOpView::Put { key: l, value: w, if_version: d },
        ) => {
            let x = framed(v) + condition_wire(c);
            let y = framed(w) + condition_wire(d);
            assert(op_wire(a) =~= le_bytes(0, 4) + (framed(k) + x));
            assert(op_wire(b) =~= le_bytes(0, 4) + (framed(l) + y));
            lemma_number_unique(0, 0, 4, framed(k) + x, framed(l) + y);
            lemma_list_unique(k, l, x, y);
            lemma_wire_bytes(v);
            lemma_wire_bytes(w);
            lemma_list_unique(v, w, condition_wire(c), condition_wire(d));
            lemma_condition_unique(c, d);
        },
        (
            DataOpView::Delete { key: k, if_version: c },
            DataOpView::Delete { key: l, if_version: d },
        ) => {
            lemma_number_unique(
                1,
                1,
                4,
                framed(k) + condition_wire(c),
                framed(l) + condition_wire(d),
            );
            lemma_list_unique(k, l, condition_wire(c), condition_wire(d));
            lemma_condition_unique(c, d);
        },
        (DataOpView::Put { key: k, value: v, if_version: c }, DataOpView::Delete { key: l, if_version: d }) => {
            lemma_number_unique(
                0,
                1,
                4,
                framed(k) + framed(v) + condition_wire(c),
                framed(l) + condition_wire(d),
            );
        },
        (DataOpView::Delete { key: l, if_version: d }, DataOpView::Put { key: k, value: v, if_version: c }) => {
            lemma_number_unique(
                1,
                0,
                4,
                framed(l) + condition_wire(d),
                framed(k) + framed(v) + condition_wire(c),
            );
        },
    }
}

// -- the rules ---------------------------------------------------------------

/// A stored record, where it can be read.
pub enum Found<T> {
    Absent,
    Present(T),
    Corrupt,
}

/// The record of a user key.
pub open spec fn key_at(s: Records, key: Seq<u8>) -> Found<KeyView> {
    if s.contains_key(user_bytes(key)) {
        match key_record_in(s[user_bytes(key)]) {
            Some(r) => Found::Present(r),
            None => Found::Corrupt,
        }
    } else {
        Found::Absent
    }
}

/// The idempotency record of a client.
pub open spec fn seq_at(s: Records, client_id: ClientId) -> Found<SeqRecord> {
    if s.contains_key(seq_bytes(client_id)) {
        match seq_record_in(s[seq_bytes(client_id)]) {
            Some(r) => Found::Present(r),
            None => Found::Corrupt,
        }
    } else {
        Found::Absent
    }
}

/// Whether a key's current record meets an operation's condition. A delete can
/// not ask for an absent key.
pub open spec fn condition_met(current: Option<KeyView>, op: DataOpView) -> bool {
    match op.if_version() {
        None => true,
        Some(IfVersion::Number(v)) => current matches Some(r) && r.version == v,
        Some(IfVersion::Absent) => op is Put && current is None,
    }
}

/// What an operation does to its key at a log index.
pub open spec fn op_decision(
    current: Option<KeyView>,
    op: DataOpView,
    log_index: u64,
) -> (MutationResult, Seq<StateMutationView>) {
    if !condition_met(current, op) {
        (
            MutationResult::ConditionFailed {
                current: match current {
                    Some(r) => KeyPresence::Present { version: r.version },
                    None => KeyPresence::Absent,
                },
            },
            Seq::empty(),
        )
    } else {
        (
            MutationResult::Applied { version: log_index },
            match op {
                DataOpView::Put { key, value, .. } => seq![
                    StateMutationView::Put {
                        key: user_bytes(key),
                        value: key_wire(KeyView { version: log_index, value }),
                    },
                ],
                DataOpView::Delete { key, .. } => if current is Some {
                    seq![StateMutationView::Delete { key: user_bytes(key) }]
                } else {
                    Seq::empty()
                },
            },
        )
    }
}

/// A decision on a committed entry: the outcome with its changes, or an
/// unreadable record that prevents one.
pub enum EntryDecision {
    Decided(ApplyResult, Seq<StateMutationView>),
    Failed,
}

pub open spec fn refused_entry(reason: RejectReason) -> EntryDecision {
    EntryDecision::Decided(ApplyResult::Rejected(reason), Seq::empty())
}

/// What a committed request decides, given the digest of its operation.
pub open spec fn entry_decision(
    s: Records,
    req: DataRequestView,
    digest: u128,
    log_index: u64,
) -> EntryDecision {
    if req.op is Delete && req.op.if_version() == Some(IfVersion::Absent) {
        refused_entry(RejectReason::Malformed)
    } else {
        match seq_at(s, req.client_id) {
            Found::Corrupt => EntryDecision::Failed,
            Found::Absent => if req.sequence == 0 {
                refused_entry(RejectReason::StaleSequence { highest: 0, got: 0 })
            } else if req.sequence > 1 {
                refused_entry(RejectReason::SequenceGap { expected: 1, got: req.sequence })
            } else {
                fresh_decision(s, req, digest, log_index)
            },
            Found::Present(r) => if req.sequence == r.highest {
                if r.digest == digest {
                    EntryDecision::Decided(ApplyResult::Replayed(r.result), Seq::empty())
                } else {
                    refused_entry(RejectReason::SequenceMismatch)
                }
            } else if req.sequence < r.highest {
                refused_entry(
                    RejectReason::StaleSequence { highest: r.highest, got: req.sequence },
                )
            } else if req.sequence > r.highest + 1 {
                refused_entry(
                    RejectReason::SequenceGap {
                        expected: (r.highest + 1) as u64,
                        got: req.sequence,
                    },
                )
            } else {
                fresh_decision(s, req, digest, log_index)
            },
        }
    }
}

/// What the next sequence of a client decides.
pub open spec fn fresh_decision(
    s: Records,
    req: DataRequestView,
    digest: u128,
    log_index: u64,
) -> EntryDecision {
    match key_at(s, req.op.key()) {
        Found::Corrupt => EntryDecision::Failed,
        Found::Absent => decided(None, req, digest, log_index),
        Found::Present(r) => decided(Some(r), req, digest, log_index),
    }
}

/// The decision on an operation, with the client's record advanced.
pub open spec fn decided(
    current: Option<KeyView>,
    req: DataRequestView,
    digest: u128,
    log_index: u64,
) -> EntryDecision {
    let (result, changes) = op_decision(current, req.op, log_index);
    EntryDecision::Decided(
        ApplyResult::Decided(result),
        changes.push(
            StateMutationView::Put {
                key: seq_bytes(req.client_id),
                value: seq_wire(SeqRecord { highest: req.sequence, digest, result }),
            },
        ),
    )
}

/// What the executable functions return for a decision.
pub type EntryEvaluation = Result<(ApplyResult, Vec<StateMutation>), Error>;

/// Whether an evaluation carries a decision out.
pub open spec fn evaluates_to(e: EntryEvaluation, d: EntryDecision) -> bool {
    match e {
        Ok((result, muts)) => d == EntryDecision::Decided(result, state_mutation_views(muts@)),
        Err(error) => d is Failed && error@ is Codec,
    }
}

// -- reading and writing records ---------------------------------------------

fn encode_key_record(r: KeyRecord) -> (bytes: Vec<u8>)
    ensures
        bytes@ == key_wire(KeyView { version: r.version, value: r.value@ }),
{
    let pair: (u64, Vec<u8>) = (r.version, r.value);
    let bytes = encode(&pair);
    proof {
        lemma_content_bytes(pair.1);
        lemma_wire_bytes(pair.1@);
        assert(bytes@ =~= key_wire(KeyView { version: r.version, value: r.value@ }));
    }
    bytes
}

fn decode_key_record(bytes: &[u8]) -> (r: Result<KeyRecord, Error>)
    ensures
        match r {
            Ok(k) => key_record_in(bytes@) == Some(
                KeyView { version: k.version, value: k.value@ },
            ),
            Err(e) => key_record_in(bytes@) is None && e@ is Codec,
        },
{
    match decode::<(u64, Vec<u8>)>(bytes) {
        Ok(pair) => {
            let ghost view = KeyView { version: pair.0, value: pair.1@ };
            proof {
                lemma_content_bytes(pair.1);
                lemma_wire_bytes(pair.1@);
                assert(<(u64, Vec<u8>) as Wire>::wire(pair.content()) =~= key_wire(view));
                assert(key_wire(view).is_prefix_of(bytes@));
                assert(view.value.len() <= usize::MAX);
                lemma_key_unique(view, key_record_in(bytes@)->0, bytes@);
            }
            Ok(KeyRecord { version: pair.0, value: pair.1 })
        },
        Err(e) => {
            proof {
                if key_record_in(bytes@) is Some {
                    let r = key_record_in(bytes@)->0;
                    let c = (r.version, r.value);
                    assert(r.value.len() <= usize::MAX && key_wire(r).is_prefix_of(bytes@));
                    lemma_wire_bytes(r.value);
                    assert(<(u64, Vec<u8>) as Wire>::fits(c));
                    assert(<(u64, Vec<u8>) as Wire>::wire(c) =~= key_wire(r));
                }
            }
            Err(e)
        },
    }
}

/// A mutation result as nested choices.
pub open spec fn result_content(r: MutationResult) -> Result<u64, Result<u64, ()>> {
    match r {
        MutationResult::Applied { version } => Ok(version),
        MutationResult::ConditionFailed { current: KeyPresence::Present { version } } => Err(
            Ok(version),
        ),
        MutationResult::ConditionFailed { current: KeyPresence::Absent } => Err(Err(())),
    }
}

fn flatten_result(r: MutationResult) -> (c: Result<u64, Result<u64, ()>>)
    ensures
        c == result_content(r),
{
    match r {
        MutationResult::Applied { version } => Ok(version),
        MutationResult::ConditionFailed { current: KeyPresence::Present { version } } => Err(
            Ok(version),
        ),
        MutationResult::ConditionFailed { current: KeyPresence::Absent } => Err(Err(())),
    }
}

fn unflatten_result(c: Result<u64, Result<u64, ()>>) -> (r: MutationResult)
    ensures
        c == result_content(r),
{
    match c {
        Ok(version) => MutationResult::Applied { version },
        Err(Ok(version)) => MutationResult::ConditionFailed {
            current: KeyPresence::Present { version },
        },
        Err(Err(unit)) => {
            assert(unit == ());
            MutationResult::ConditionFailed { current: KeyPresence::Absent }
        },
    }
}

proof fn lemma_result_content_wire(r: MutationResult)
    ensures
        <Result<u64, Result<u64, ()>> as Wire>::wire(result_content(r)) == result_wire(r),
{
}

fn encode_seq_record(r: SeqRecord) -> (bytes: Vec<u8>)
    ensures
        bytes@ == seq_wire(r),
{
    let triple: (u64, u128, Result<u64, Result<u64, ()>>) = (
        r.highest,
        r.digest,
        flatten_result(r.result),
    );
    let bytes = encode(&triple);
    proof {
        lemma_result_content_wire(r.result);
        assert(triple.content() == (r.highest, r.digest, result_content(r.result)));
    }
    bytes
}

fn decode_seq_record(bytes: &[u8]) -> (r: Result<SeqRecord, Error>)
    ensures
        match r {
            Ok(record) => seq_record_in(bytes@) == Some(record),
            Err(e) => seq_record_in(bytes@) is None && e@ is Codec,
        },
{
    match decode::<(u64, u128, Result<u64, Result<u64, ()>>)>(bytes) {
        Ok(triple) => {
            let record = SeqRecord {
                highest: triple.0,
                digest: triple.1,
                result: unflatten_result(triple.2),
            };
            proof {
                lemma_result_content_wire(record.result);
                assert(triple.content() == (
                    record.highest,
                    record.digest,
                    result_content(record.result),
                ));
                assert(seq_wire(record).is_prefix_of(bytes@));
                lemma_seq_unique(record, seq_record_in(bytes@)->0, bytes@);
            }
            Ok(record)
        },
        Err(e) => {
            proof {
                if seq_record_in(bytes@) is Some {
                    let r = seq_record_in(bytes@)->0;
                    let c = (r.highest, r.digest, result_content(r.result));
                    assert(seq_wire(r).is_prefix_of(bytes@));
                    lemma_result_content_wire(r.result);
                    assert(<(u64, u128, Result<u64, Result<u64, ()>>) as Wire>::fits(c));
                    assert(<(u64, u128, Result<u64, Result<u64, ()>>) as Wire>::wire(c)
                        == seq_wire(r));
                }
            }
            Err(e)
        },
    }
}

fn flatten_condition(c: Option<IfVersion>) -> (r: Option<Result<u64, ()>>)
    ensures
        r == condition_content(c),
{
    match c {
        None => None,
        Some(IfVersion::Number(v)) => Some(Ok(v)),
        Some(IfVersion::Absent) => Some(Err(())),
    }
}

/// A version condition as nested choices.
pub open spec fn condition_content(c: Option<IfVersion>) -> Option<Result<u64, ()>> {
    match c {
        None => None,
        Some(IfVersion::Number(v)) => Some(Ok(v)),
        Some(IfVersion::Absent) => Some(Err(())),
    }
}

/// The canonical bytes of an operation.
fn op_bytes(op: &DataOp) -> (bytes: Vec<u8>)
    ensures
        bytes@ == op_wire(op@),
{
    let content: Result<
        (Vec<u8>, Vec<u8>, Option<Result<u64, ()>>),
        (Vec<u8>, Option<Result<u64, ()>>),
    > = match op {
        DataOp::Put { key, value, if_version } => Ok(
            (key.clone(), value.clone(), flatten_condition(*if_version)),
        ),
        DataOp::Delete { key, if_version } => Err((key.clone(), flatten_condition(*if_version))),
    };
    let bytes = encode(&content);
    proof {
        match content {
            Ok(put) => {
                lemma_content_bytes(put.0);
                lemma_content_bytes(put.1);
                lemma_wire_bytes(put.0@);
                lemma_wire_bytes(put.1@);
                assert(<Option<Result<u64, ()>> as Wire>::wire(put.2.content())
                    == condition_wire(op@.if_version()));
            },
            Err(delete) => {
                lemma_content_bytes(delete.0);
                lemma_wire_bytes(delete.0@);
                assert(<Option<Result<u64, ()>> as Wire>::wire(delete.1.content())
                    == condition_wire(op@.if_version()));
            },
        }
        assert(bytes@ =~= op_wire(op@));
    }
    bytes
}

/// The digest of an operation's canonical bytes. It covers the operation alone,
/// so a retry at the same sequence must carry an identical operation to match.
pub fn digest(op: &DataOp) -> (d: u128)
    ensures
        d == op_digest(op@),
{
    hash_128(&op_bytes(op))
}

// -- a batch layered over the table ------------------------------------------

/// The records with pending changes laid over them.
pub open spec fn overlaid(base: Records, pending: Seq<(Seq<u8>, Option<Seq<u8>>)>) -> Records {
    Map::new(
        |k: Seq<u8>|
            match get(pending, k) {
                Some(change) => change is Some,
                None => base.contains_key(k),
            },
        |k: Seq<u8>|
            match get(pending, k) {
                Some(Some(v)) => v,
                _ => base[k],
            },
    )
}

proof fn lemma_overlay_put(
    base: Records,
    pending: Seq<(Seq<u8>, Option<Seq<u8>>)>,
    k: Seq<u8>,
    change: Option<Seq<u8>>,
)
    ensures
        overlaid(base, put(pending, k, change)) == match change {
            Some(v) => overlaid(base, pending).insert(k, v),
            None => overlaid(base, pending).remove(k),
        },
{
    lemma_put(pending, k, change);
    let next = put(pending, k, change);
    let want = match change {
        Some(v) => overlaid(base, pending).insert(k, v),
        None => overlaid(base, pending).remove(k),
    };
    assert forall|x: Seq<u8>| #[trigger] overlaid(base, next).contains_key(x) == want.contains_key(
        x,
    ) by {
        if x != k {
            assert(get(next, x) == get(pending, x));
        }
    }
    assert forall|x: Seq<u8>| overlaid(base, next).contains_key(x) implies #[trigger] overlaid(
        base,
        next,
    )[x] == want[x] by {
        if x != k {
            assert(get(next, x) == get(pending, x));
        }
    }
    assert(overlaid(base, next) =~= want);
}

/// The change that a pending entry stands for.
pub open spec fn pending_change(e: (Seq<u8>, Option<Seq<u8>>)) -> StateMutationView {
    match e.1 {
        Some(value) => StateMutationView::Put { key: e.0, value },
        None => StateMutationView::Delete { key: e.0 },
    }
}

pub open spec fn pending_changes(
    pending: Seq<(Seq<u8>, Option<Seq<u8>>)>,
) -> Seq<StateMutationView> {
    pending.map_values(|e: (Seq<u8>, Option<Seq<u8>>)| pending_change(e))
}

/// One change per touched key does what the whole batch did.
proof fn lemma_pending_changes(base: Records, pending: Seq<(Seq<u8>, Option<Seq<u8>>)>)
    requires
        keys_distinct(pending),
    ensures
        after_changes(base, pending_changes(pending)) == overlaid(base, pending),
    decreases pending.len(),
{
    if pending.len() == 0 {
        assert(pending_changes(pending) =~= Seq::<StateMutationView>::empty());
        assert(overlaid(base, pending) =~= base);
    } else {
        let head = pending.drop_last();
        let (k, change) = pending.last();
        assert(keys_distinct(head)) by {
            assert forall|i: int, j: int| 0 <= i < j < head.len() implies #[trigger] head[i].0
                != #[trigger] head[j].0 by {
                assert(pending[i].0 != pending[j].0);
            }
        }
        lemma_pending_changes(base, head);
        assert forall|j: int| 0 <= j < head.len() implies (#[trigger] head[j]).0 != k by {
            assert(pending[j].0 != pending[pending.len() - 1].0);
        }
        lemma_slot_is(head, k, head.len() as int);
        assert(put(head, k, change) =~= pending);
        lemma_overlay_put(base, head, k, change);
        assert(pending_changes(pending).drop_last() =~= pending_changes(head));
        assert(pending_changes(pending).last() == pending_change(pending.last()));
    }
}

/// The content of an optional value.
pub open spec fn change_content(value: &Option<Vec<u8>>) -> Option<Seq<u8>> {
    match value {
        Some(v) => Some(v@),
        None => None,
    }
}

/// The content of a change, as it is staged under its key.
pub open spec fn change_value(m: StateMutationView) -> Option<Seq<u8>> {
    match m {
        StateMutationView::Put { value, .. } => Some(value),
        StateMutationView::Delete { .. } => None,
    }
}

/// Staged changes with a run of changes put over them, one after the other.
pub open spec fn staged_over(
    pending: Seq<(Seq<u8>, Option<Seq<u8>>)>,
    muts: Seq<StateMutationView>,
) -> Seq<(Seq<u8>, Option<Seq<u8>>)>
    decreases muts.len(),
{
    if muts.len() == 0 {
        pending
    } else {
        put(
            staged_over(pending, muts.drop_last()),
            muts.last().key(),
            change_value(muts.last()),
        )
    }
}

/// Pending changes of one group, laid over its committed records for the
/// duration of one batch. Staged changes are visible to later reads; the durable
/// write happens once at the end.
pub struct StateOverlay<'a> {
    storage: &'a StateTable,
    pending: Vec<(Vec<u8>, Option<Vec<u8>>)>,
}

impl<'a> StateOverlay<'a> {
    /// The staged changes, the last one to each key.
    pub closed spec fn staged(&self) -> Seq<(Seq<u8>, Option<Seq<u8>>)> {
        self.pending@.map_values(
            |e: (Vec<u8>, Option<Vec<u8>>)| (e.0@, change_content(&e.1)),
        )
    }

    /// The committed records underneath.
    pub closed spec fn base(&self) -> Records {
        self.storage.records()
    }

    pub fn new(storage: &'a StateTable) -> (o: StateOverlay<'a>)
        requires
            storage.valid(),
        ensures
            o.valid(),
            o.base() == storage.records(),
            o.staged() == Seq::<(Seq<u8>, Option<Seq<u8>>)>::empty(),
            o.records() == storage.records(),
    {
        let pending: Vec<(Vec<u8>, Option<Vec<u8>>)> = Vec::new();
        let o = StateOverlay { storage, pending };
        assert(o.staged() =~= Seq::<(Seq<u8>, Option<Seq<u8>>)>::empty());
        assert(overlaid(storage.records(), o.staged()) =~= storage.records());
        o
    }

    fn find(&self, key: &[u8]) -> (i: usize)
        ensures
            i == slot(self.staged(), key@),
            i <= self.pending@.len(),
    {
        let mut i: usize = 0;
        while i < self.pending.len() && !same_bytes(&self.pending[i].0, key)
            invariant
                i <= self.pending@.len(),
                forall|j: int| 0 <= j < i ==> (#[trigger] self.staged()[j]).0 != key@,
            decreases self.pending@.len() - i,
        {
            i += 1;
        }
        proof {
            lemma_slot_is(self.staged(), key@, i as int);
        }
        i
    }

    fn stage_one(&mut self, key: &Vec<u8>, value: Option<Vec<u8>>)
        requires
            old(self).valid(),
        ensures
            final(self).valid(),
            final(self).base() == old(self).base(),
            final(self).staged() == put(old(self).staged(), key@, change_content(&value)),
            final(self).records() == match value {
                Some(v) => old(self).records().insert(key@, v@),
                None => old(self).records().remove(key@),
            },
    {
        let ghost before = self.staged();
        let ghost change = change_content(&value);
        let i: usize = self.find(key);
        if i < self.pending.len() {
            self.pending.set(i, (key.clone(), value));
        } else {
            self.pending.push((key.clone(), value));
        }
        proof {
            assert(self.staged() =~= put(before, key@, change));
            lemma_put(before, key@, change);
            lemma_overlay_put(self.storage.records(), before, key@, change);
        }
    }

    /// Fold an entry's changes into the batch, so that later entries read them.
    /// The last change to a key wins.
    pub fn stage(&mut self, mutations: &Vec<StateMutation>)
        requires
            old(self).valid(),
        ensures
            final(self).valid(),
            final(self).base() == old(self).base(),
            final(self).staged() == staged_over(
                old(self).staged(),
                state_mutation_views(mutations@),
            ),
            final(self).records() == after_changes(
                old(self).records(),
                state_mutation_views(mutations@),
            ),
    {
        let ghost views = state_mutation_views(mutations@);
        let ghost before = self.records();
        let ghost held = self.staged();
        let ghost base = self.base();
        let mut i: usize = 0;
        proof {
            assert(views.take(0) =~= Seq::<StateMutationView>::empty());
        }
        while i < mutations.len()
            invariant
                i <= mutations@.len(),
                views == state_mutation_views(mutations@),
                self.valid(),
                self.base() == base,
                self.staged() == staged_over(held, views.take(i as int)),
                self.records() == after_changes(before, views.take(i as int)),
            decreases mutations@.len() - i,
        {
            match &mutations[i] {
                StateMutation::Put { key, value } => {
                    self.stage_one(key, Some(value.clone()));
                },
                StateMutation::Delete { key } => {
                    self.stage_one(key, None);
                },
            }
            proof {
                assert(views.take(i + 1).drop_last() =~= views.take(i as int));
                assert(views.take(i + 1).last() == views[i as int]);
            }
            i += 1;
        }
        proof {
            assert(views.take(i as int) =~= views);
        }
    }

    /// Collapse the batch into one change per touched key, the last one staged.
    /// Together they do to the committed records what every staged change did in
    /// order.
    pub fn into_mutations(self) -> (out: Vec<StateMutation>)
        requires
            self.valid(),
        ensures
            state_mutation_views(out@) == pending_changes(self.staged()),
            after_changes(self.base(), state_mutation_views(out@)) == self.records(),
            forall|i: int, j: int|
                0 <= i < j < out@.len() ==> (#[trigger] out@[i])@.key() != (
                #[trigger] out@[j])@.key(),
    {
        let mut out: Vec<StateMutation> = Vec::new();
        let mut i: usize = 0;
        while i < self.pending.len()
            invariant
                i <= self.pending@.len(),
                out@.len() == i,
                forall|j: int|
                    0 <= j < i ==> (#[trigger] out@[j])@ == pending_change(self.staged()[j]),
            decreases self.pending@.len() - i,
        {
            let entry = &self.pending[i];
            match &entry.1 {
                Some(value) => {
                    out.push(StateMutation::Put { key: entry.0.clone(), value: value.clone() });
                },
                None => {
                    out.push(StateMutation::Delete { key: entry.0.clone() });
                },
            }
            i += 1;
        }
        proof {
            assert(state_mutation_views(out@) =~= pending_changes(self.staged()));
            lemma_pending_changes(self.storage.records(), self.staged());
            assert forall|a: int, b: int| 0 <= a < b < out@.len() implies (#[trigger] out@[a])@.key()
                != (#[trigger] out@[b])@.key() by {
                assert(self.staged()[a].0 != self.staged()[b].0);
            }
        }
        out
    }
}

impl<'a> StateRead for StateOverlay<'a> {
    closed spec fn valid(&self) -> bool {
        self.storage.valid() && keys_distinct(self.staged())
    }

    closed spec fn records(&self) -> Records {
        overlaid(self.storage.records(), self.staged())
    }

    fn read_state(&self, key: &[u8]) -> (r: Option<Vec<u8>>) {
        let i: usize = self.find(key);
        if i < self.pending.len() {
            match &self.pending[i].1 {
                Some(value) => Some(value.clone()),
                None => None,
            }
        } else {
            self.storage.read_state(key)
        }
    }
}

// -- the executable rules ----------------------------------------------------

/// The decision procedure of one data group.
#[derive(Debug, Clone, Copy, PartialEq, Eq, Structural)]
pub struct DataStateMachine {
    group: GroupId,
}

fn no_change(result: ApplyResult) -> (e: EntryEvaluation)
    ensures
        evaluates_to(e, EntryDecision::Decided(result, Seq::empty())),
{
    let muts: Vec<StateMutation> = Vec::new();
    assert(state_mutation_views(muts@) =~= Seq::<StateMutationView>::empty());
    Ok((result, muts))
}

fn refuse(reason: RejectReason) -> (e: EntryEvaluation)
    ensures
        evaluates_to(e, refused_entry(reason)),
{
    no_change(ApplyResult::Rejected(reason))
}

/// What an operation does to its key, given the key's record.
fn decide_op(current: &Option<KeyRecord>, op: &DataOp, log_index: u64) -> (r: (
    MutationResult,
    Vec<StateMutation>,
))
    ensures
        (r.0, state_mutation_views(r.1@)) == op_decision(
            match current {
                Some(k) => Some(KeyView { version: k.version, value: k.value@ }),
                None => None,
            },
            op@,
            log_index,
        ),
{
    let presence = match current {
        Some(k) => KeyPresence::Present { version: k.version },
        None => KeyPresence::Absent,
    };
    let mut muts: Vec<StateMutation> = Vec::new();
    let if_version: Option<IfVersion> = match op {
        DataOp::Put { if_version, .. } => *if_version,
        DataOp::Delete { if_version, .. } => *if_version,
    };
    let is_put: bool = match op {
        DataOp::Put { .. } => true,
        DataOp::Delete { .. } => false,
    };
    let ok: bool = match if_version {
        None => true,
        Some(IfVersion::Number(v)) => match current {
            Some(k) => k.version == v,
            None => false,
        },
        Some(IfVersion::Absent) => is_put && current.is_none(),
    };
    if !ok {
        assert(state_mutation_views(muts@) =~= Seq::<StateMutationView>::empty());
        return (MutationResult::ConditionFailed { current: presence }, muts);
    }
    match op {
        DataOp::Put { key, value, .. } => {
            let record = KeyRecord { version: log_index, value: value.clone() };
            muts.push(StateMutation::Put { key: user_key(key), value: encode_key_record(record) });
            assert(state_mutation_views(muts@) =~= seq![
                StateMutationView::Put {
                    key: user_bytes(key@),
                    value: key_wire(KeyView { version: log_index, value: value@ }),
                },
            ]);
        },
        DataOp::Delete { key, .. } => {
            if current.is_some() {
                muts.push(StateMutation::Delete { key: user_key(key) });
                assert(state_mutation_views(muts@) =~= seq![
                    StateMutationView::Delete { key: user_bytes(key@) },
                ]);
            } else {
                assert(state_mutation_views(muts@) =~= Seq::<StateMutationView>::empty());
            }
        },
    }
    (MutationResult::Applied { version: log_index }, muts)
}

impl DataStateMachine {
    pub closed spec fn spec_group(&self) -> GroupId {
        self.group
    }

    pub fn new(group: GroupId) -> (m: DataStateMachine)
        ensures
            m.spec_group() == group,
    {
        DataStateMachine { group }
    }

    pub fn group(&self) -> (g: GroupId)
        ensures
            g == self.spec_group(),
    {
        self.group
    }

    fn key_record<R: StateRead>(&self, reader: &R, key: &[u8]) -> (r: Result<
        Option<KeyRecord>,
        Error,
    >)
        requires
            reader.valid(),
        ensures
            match r {
                Ok(None) => key_at(reader.records(), key@) is Absent,
                Ok(Some(k)) => key_at(reader.records(), key@) == Found::Present(
                    KeyView { version: k.version, value: k.value@ },
                ),
                Err(e) => key_at(reader.records(), key@) is Corrupt && e@ is Codec,
            },
    {
        match reader.read_state(&user_key(key)) {
            None => Ok(None),
            Some(bytes) => match decode_key_record(&bytes) {
                Ok(record) => Ok(Some(record)),
                Err(e) => Err(e),
            },
        }
    }

    fn seq_record<R: StateRead>(&self, reader: &R, client_id: ClientId) -> (r: Result<
        Option<SeqRecord>,
        Error,
    >)
        requires
            reader.valid(),
        ensures
            match r {
                Ok(None) => seq_at(reader.records(), client_id) is Absent,
                Ok(Some(record)) => seq_at(reader.records(), client_id) == Found::Present(record),
                Err(e) => seq_at(reader.records(), client_id) is Corrupt && e@ is Codec,
            },
    {
        match reader.read_state(&seq_key(client_id)) {
            None => Ok(None),
            Some(bytes) => match decode_seq_record(&bytes) {
                Ok(record) => Ok(Some(record)),
                Err(e) => Err(e),
            },
        }
    }

    /// The current version and value of a key.
    pub fn get<R: StateRead>(&self, reader: &R, key: &[u8]) -> (r: Result<
        Option<(Version, Vec<u8>)>,
        Error,
    >)
        requires
            reader.valid(),
        ensures
            match r {
                Ok(None) => key_at(reader.records(), key@) is Absent,
                Ok(Some((version, value))) => key_at(reader.records(), key@) == Found::Present(
                    KeyView { version, value: value@ },
                ),
                Err(e) => key_at(reader.records(), key@) is Corrupt && e@ is Codec,
            },
    {
        match self.key_record(reader, key) {
            Ok(Some(record)) => Ok(Some((record.version, record.value))),
            Ok(None) => Ok(None),
            Err(e) => Err(e),
        }
    }

    fn decide<R: StateRead>(
        &self,
        reader: &R,
        req: &DataRequest,
        digest: u128,
        log_index: u64,
    ) -> (e: EntryEvaluation)
        requires
            reader.valid(),
        ensures
            evaluates_to(e, fresh_decision(reader.records(), req@, digest, log_index)),
    {
        let current = match self.key_record(reader, req.op.key()) {
            Ok(current) => current,
            Err(e) => {
                return Err(e);
            },
        };
        let (result, changes) = decide_op(&current, &req.op, log_index);
        let record = SeqRecord { highest: req.sequence, digest, result };
        let mut muts = changes;
        muts.push(
            StateMutation::Put { key: seq_key(req.client_id), value: encode_seq_record(record) },
        );
        assert(state_mutation_views(muts@) =~= state_mutation_views(changes@).push(
            StateMutationView::Put { key: seq_bytes(req.client_id), value: seq_wire(record) },
        ));
        Ok((ApplyResult::Decided(result), muts))
    }

    /// Decide a committed entry, given the digest of its operation, changing
    /// nothing.
    pub fn evaluate_digested<R: StateRead>(
        &self,
        reader: &R,
        req: &DataRequest,
        digest: u128,
        log_index: u64,
    ) -> (e: EntryEvaluation)
        requires
            reader.valid(),
        ensures
            evaluates_to(e, entry_decision(reader.records(), req@, digest, log_index)),
    {
        if let DataOp::Delete { if_version: Some(IfVersion::Absent), .. } = &req.op {
            return refuse(RejectReason::Malformed);
        }
        let seq = match self.seq_record(reader, req.client_id) {
            Ok(seq) => seq,
            Err(e) => {
                return Err(e);
            },
        };
        let highest: u64 = match seq {
            Some(record) => record.highest,
            None => 0,
        };
        if req.sequence == highest {
            return match seq {
                Some(record) => if record.digest == digest {
                    no_change(ApplyResult::Replayed(record.result))
                } else {
                    refuse(RejectReason::SequenceMismatch)
                },
                None => refuse(RejectReason::StaleSequence { highest, got: req.sequence }),
            };
        }
        if req.sequence < highest {
            return refuse(RejectReason::StaleSequence { highest, got: req.sequence });
        }
        let expected: u64 = match highest.checked_add(1) {
            Some(expected) => expected,
            None => {
                return refuse(RejectReason::SequenceExhausted);
            },
        };
        if req.sequence > expected {
            return refuse(RejectReason::SequenceGap { expected, got: req.sequence });
        }
        self.decide(reader, req, digest, log_index)
    }

    /// Decide a committed entry, changing nothing. Replays and refusals make no
    /// change.
    pub fn evaluate<R: StateRead>(
        &self,
        reader: &R,
        req: &DataRequest,
        log_index: u64,
    ) -> (e: EntryEvaluation)
        requires
            reader.valid(),
        ensures
            evaluates_to(
                e,
                entry_decision(reader.records(), req@, op_digest(req@.op), log_index),
            ),
    {
        self.evaluate_digested(reader, req, digest(&req.op), log_index)
    }

    /// Decide a committed entry and carry it out. Every entry advances the
    /// applied position, whatever it decides; only an unreadable record stops it.
    pub fn apply(&self, storage: &mut StateTable, req: &DataRequest, log_index: u64) -> (r: Result<
        ApplyResult,
        Error,
    >)
        requires
            old(storage).valid(),
        ensures
            final(storage).valid(),
            match r {
                Ok(result) => entry_decision(
                    old(storage).records(),
                    req@,
                    op_digest(req@.op),
                    log_index,
                ) matches EntryDecision::Decided(decided_result, muts) && decided_result == result
                    && final(storage).records() == after_changes(old(storage).records(), muts)
                    && final(storage).applied_at() == Some(LogId { term: 0, index: log_index }),
                Err(e) => e@ is Codec && entry_decision(
                    old(storage).records(),
                    req@,
                    op_digest(req@.op),
                    log_index,
                ) is Failed && *final(storage) == *old(storage),
            },
    {
        match self.evaluate(storage, req, log_index) {
            Ok((result, muts)) => {
                storage.apply_state(&muts, LogId { term: 0, index: log_index });
                Ok(result)
            },
            Err(e) => Err(e),
        }
    }
}

/// What a retry is told apart by is the hash of the whole operation: its kind, its key,
/// its value and its condition. Operations with different digests differ, and equal
/// bytes are equal operations.
pub proof fn law_digest_covers_the_operation(op: DataOpView, other: DataOpView)
    ensures
        op_digest(op) == xxh3_128_of(op_wire(op)),
        op_fits(op) && op_fits(other) && op_wire(op) == op_wire(other) ==> op == other,
{
    if op_fits(op) && op_fits(other) && op_wire(op) == op_wire(other) {
        law_canonical_bytes_identify_operation(op, other);
    }
}

/// An evaluation carries out one decision: it succeeds where the decision was taken,
/// with its result and its changes, and fails where the records could not be read.
pub proof fn law_evaluations_carry_out_decisions(e: EntryEvaluation, d: EntryDecision)
    requires
        evaluates_to(e, d),
    ensures
        e is Ok <==> d is Decided,
        e is Ok ==> e->Ok_0.0 == d->Decided_0 && state_mutation_views(e->Ok_0.1@)
            == d->Decided_1,
        e is Err ==> d is Failed && e->Err_0@ is Codec,
{
}

} // verus!
