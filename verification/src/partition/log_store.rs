//! The layout of a group's log: the keys of its entries and markers, which rows
//! a read covers, and the writes that append, truncate and purge.
use crate::bytes::{
    be_bytes, be_value, byte_capacity, lemma_be_bytes_len, lemma_be_round_trip, lemma_capacities,
    push_be, read_be,
};
use crate::partition::table::{copy_bytes, Records};
use crate::partition::raft_types::RaftLogId;
use crate::types::GroupId;
use vstd::prelude::*;

verus! {

/// What every entry key begins with.
pub const ENTRY_PREFIX: u8 = 0x01;

/// One past the entry prefix, where a backward scan of the entries begins.
pub const ENTRY_PREFIX_END: u8 = 0x02;

/// The key of the saved vote.
pub open spec fn vote_bytes() -> Seq<u8> {
    seq![0x00u8, 0x76u8]
}

/// The key of the purge marker.
pub open spec fn purged_bytes() -> Seq<u8> {
    seq![0x00u8, 0x70u8]
}

/// The key of the committed position.
pub open spec fn committed_bytes() -> Seq<u8> {
    seq![0x00u8, 0x63u8]
}

/// The key of the entry at an index.
pub open spec fn entry_bytes(index: u64) -> Seq<u8> {
    seq![ENTRY_PREFIX] + be_bytes(index as nat, 8)
}

/// The index that an entry key names.
pub open spec fn index_in(key: Seq<u8>) -> Option<u64> {
    if key.len() == 9 && key[0] == ENTRY_PREFIX {
        Some(be_value(key.skip(1)) as u64)
    } else {
        None
    }
}

/// The order in which rows are stored: byte by byte, a shorter key before the
/// longer keys it begins.
pub open spec fn key_before(a: Seq<u8>, b: Seq<u8>) -> bool
    decreases a.len(),
{
    if b.len() == 0 {
        false
    } else if a.len() == 0 {
        true
    } else if a[0] != b[0] {
        a[0] < b[0]
    } else {
        key_before(a.skip(1), b.skip(1))
    }
}

pub fn vote_key() -> (k: Vec<u8>)
    ensures
        k@ == vote_bytes(),
{
    let mut k: Vec<u8> = Vec::new();
    k.push(0x00);
    k.push(0x76);
    assert(k@ =~= vote_bytes());
    k
}

pub fn purged_key() -> (k: Vec<u8>)
    ensures
        k@ == purged_bytes(),
{
    let mut k: Vec<u8> = Vec::new();
    k.push(0x00);
    k.push(0x70);
    assert(k@ =~= purged_bytes());
    k
}

pub fn committed_key() -> (k: Vec<u8>)
    ensures
        k@ == committed_bytes(),
{
    let mut k: Vec<u8> = Vec::new();
    k.push(0x00);
    k.push(0x63);
    assert(k@ =~= committed_bytes());
    k
}

/// Where a backward scan begins that meets the last entry first.
pub fn scan_end_key() -> (k: Vec<u8>)
    ensures
        k@ == seq![ENTRY_PREFIX_END],
        forall|index: u64| key_before(#[trigger] entry_bytes(index), k@),
{
    let mut k: Vec<u8> = Vec::new();
    k.push(ENTRY_PREFIX_END);
    assert(k@ =~= seq![ENTRY_PREFIX_END]);
    assert forall|index: u64| key_before(#[trigger] entry_bytes(index), k@) by {
        assert(entry_bytes(index)[0] == ENTRY_PREFIX);
    }
    k
}

/// The key of the entry at an index.
pub fn entry_key(index: u64) -> (k: Vec<u8>)
    ensures
        k@ == entry_bytes(index),
{
    let mut k: Vec<u8> = Vec::new();
    k.push(ENTRY_PREFIX);
    proof {
        lemma_capacities();
    }
    push_be(&mut k, index as u128, 8);
    assert(k@ =~= entry_bytes(index));
    k
}

/// The index that a key names, if it is an entry's key.
pub fn entry_index(key: &[u8]) -> (r: Option<u64>)
    ensures
        r == index_in(key@),
{
    if key.len() == 9 && key[0] == ENTRY_PREFIX {
        proof {
            lemma_capacities();
            assert(key@.subrange(1, 9) =~= key@.skip(1));
            lemma_be_value_bound(key@.skip(1));
        }
        let n: u128 = read_be(key, 1, 9);
        Some(n as u64)
    } else {
        None
    }
}

proof fn lemma_be_value_bound(s: Seq<u8>)
    ensures
        be_value(s) < byte_capacity(s.len()),
    decreases s.len(),
{
    if s.len() > 0 {
        lemma_be_value_bound(s.drop_last());
        let c = byte_capacity((s.len() - 1) as nat);
        let v = be_value(s.drop_last());
        assert(v * 256 + 255 < c * 256) by (nonlinear_arith)
            requires
                v < c,
        ;
    }
}

/// The bytes of the leading part of a number.
proof fn lemma_be_drop_last(n: nat, width: nat)
    requires
        width > 0,
    ensures
        be_bytes(n, width) == be_bytes(n / 256, (width - 1) as nat).push((n % 256) as u8),
{
}

/// Numbers in big-endian bytes are ordered as their bytes are.
proof fn lemma_be_order(a: nat, b: nat, width: nat)
    requires
        a < b < byte_capacity(width),
    ensures
        key_before(be_bytes(a, width), be_bytes(b, width)),
    decreases width,
{
    if width > 0 {
        let w = (width - 1) as nat;
        let p = be_bytes(a / 256, w);
        let q = be_bytes(b / 256, w);
        lemma_be_bytes_len(a / 256, w);
        lemma_be_bytes_len(b / 256, w);
        lemma_be_bytes_len(a, width);
        lemma_be_bytes_len(b, width);
        lemma_be_drop_last(a, width);
        lemma_be_drop_last(b, width);
        if a / 256 == b / 256 {
            lemma_order_last(p, (a % 256) as u8, (b % 256) as u8);
        } else {
            assert(b / 256 < byte_capacity(w)) by (nonlinear_arith)
                requires
                    b < byte_capacity(w) * 256,
            ;
            lemma_be_order(a / 256, b / 256, w);
            lemma_order_push(p, q, (a % 256) as u8, (b % 256) as u8);
        }
    }
}

proof fn lemma_order_last(p: Seq<u8>, x: u8, y: u8)
    requires
        x < y,
    ensures
        key_before(p.push(x), p.push(y)),
    decreases p.len(),
{
    if p.len() > 0 {
        lemma_order_last(p.skip(1), x, y);
        assert(p.push(x).skip(1) =~= p.skip(1).push(x));
        assert(p.push(y).skip(1) =~= p.skip(1).push(y));
    }
}

proof fn lemma_order_push(p: Seq<u8>, q: Seq<u8>, x: u8, y: u8)
    requires
        p.len() == q.len(),
        key_before(p, q),
    ensures
        key_before(p.push(x), q.push(y)),
    decreases p.len(),
{
    if p.len() > 0 {
        if p[0] == q[0] {
            lemma_order_push(p.skip(1), q.skip(1), x, y);
        }
        assert(p.push(x).skip(1) =~= p.skip(1).push(x));
        assert(q.push(y).skip(1) =~= q.skip(1).push(y));
    }
}

/// The order of keys is a strict order: no key stands before one that stands
/// before it.
pub proof fn lemma_key_before_strict(a: Seq<u8>, b: Seq<u8>)
    requires
        key_before(a, b),
    ensures
        !key_before(b, a),
        a != b,
    decreases a.len(),
{
    if a.len() > 0 && a[0] == b[0] {
        lemma_key_before_strict(a.skip(1), b.skip(1));
    }
}

/// Entries are stored in the order of their indexes.
pub proof fn law_entries_stored_in_order(a: u64, b: u64)
    ensures
        key_before(entry_bytes(a), entry_bytes(b)) <==> a < b,
{
    lemma_capacities();
    assert(entry_bytes(a).skip(1) =~= be_bytes(a as nat, 8));
    assert(entry_bytes(b).skip(1) =~= be_bytes(b as nat, 8));
    if a < b {
        lemma_be_order(a as nat, b as nat, 8);
    } else if b < a {
        lemma_be_order(b as nat, a as nat, 8);
        lemma_key_before_strict(entry_bytes(b), entry_bytes(a));
    } else if key_before(entry_bytes(a), entry_bytes(a)) {
        lemma_key_before_strict(entry_bytes(a), entry_bytes(a));
    }
}

/// An entry's key names its index, and the keys of the markers name none.
pub proof fn law_entry_key_round_trip(index: u64)
    ensures
        index_in(entry_bytes(index)) == Some(index),
        index_in(vote_bytes()) is None,
        index_in(purged_bytes()) is None,
        index_in(committed_bytes()) is None,
{
    lemma_capacities();
    lemma_be_bytes_len(index as nat, 8);
    lemma_be_round_trip(index as nat, 8);
    assert(entry_bytes(index).skip(1) =~= be_bytes(index as nat, 8));
}

proof fn lemma_marker_order(index: u64)
    ensures
        !key_before(entry_bytes(index), vote_bytes()),
        !key_before(entry_bytes(index), purged_bytes()),
        !key_before(entry_bytes(index), committed_bytes()),
        key_before(vote_bytes(), entry_bytes(index)),
        key_before(purged_bytes(), entry_bytes(index)),
        key_before(committed_bytes(), entry_bytes(index)),
{
    assert(entry_bytes(index)[0] == ENTRY_PREFIX);
}

// -- reading -----------------------------------------------------------------

/// One end of a range of indexes.
#[derive(Debug, Clone, Copy, PartialEq, Eq, Structural)]
pub enum LogBound {
    Included(u64),
    Excluded(u64),
    Unbounded,
}

/// The first index of a range, and the first past it. A range without an end
/// stops before the greatest index.
pub fn range_of(start: LogBound, end: LogBound) -> (r: (u64, u64))
    requires
        start != LogBound::Excluded(u64::MAX),
        end != LogBound::Included(u64::MAX),
    ensures
        r.0 == match start {
            LogBound::Included(i) => i as int,
            LogBound::Excluded(i) => i + 1,
            LogBound::Unbounded => 0,
        },
        r.1 == match end {
            LogBound::Included(i) => i + 1,
            LogBound::Excluded(i) => i as int,
            LogBound::Unbounded => u64::MAX as int,
        },
{
    let from: u64 = match start {
        LogBound::Included(i) => i,
        LogBound::Excluded(i) => i + 1,
        LogBound::Unbounded => 0,
    };
    let to: u64 = match end {
        LogBound::Included(i) => i + 1,
        LogBound::Excluded(i) => i,
        LogBound::Unbounded => u64::MAX,
    };
    (from, to)
}

/// How many leading rows are entries below an index.
pub open spec fn covered(keys: Seq<Seq<u8>>, end: u64) -> nat
    decreases keys.len(),
{
    if keys.len() == 0 {
        0
    } else if index_in(keys[0]) matches Some(i) && i < end {
        1 + covered(keys.skip(1), end)
    } else {
        0
    }
}

/// The keys of a list of rows.
pub open spec fn row_keys(rows: Seq<(Vec<u8>, Vec<u8>)>) -> Seq<Seq<u8>> {
    rows.map_values(|e: (Vec<u8>, Vec<u8>)| e.0@)
}

/// How many of the rows met by a forward scan belong to a range that ends
/// before an index.
pub fn covered_rows(rows: &Vec<(Vec<u8>, Vec<u8>)>, end: u64) -> (n: usize)
    ensures
        n == covered(row_keys(rows@), end),
        n <= rows@.len(),
{
    let mut n: usize = 0;
    let ghost keys = row_keys(rows@);
    assert(keys.skip(0) =~= keys);
    while n < rows.len()
        invariant
            n <= rows@.len(),
            keys == row_keys(rows@),
            covered(keys, end) == n + covered(keys.skip(n as int), end),
        decreases rows@.len() - n,
    {
        assert(keys.skip(n as int)[0] == keys[n as int]);
        match entry_index(&rows[n].0) {
            Some(i) if i < end => {
                assert(keys.skip(n as int).skip(1) =~= keys.skip(n + 1));
                n += 1;
            },
            _ => {
                return n;
            },
        }
    }
    n
}

/// A forward scan that starts at an index, over the entries that the log holds,
/// covers exactly the entries of the range, in order.
pub proof fn law_scan_covers_the_range(indexes: Seq<u64>, end: u64)
    requires
        forall|i: int, j: int|
            0 <= i < j < indexes.len() ==> #[trigger] indexes[i] < #[trigger] indexes[j],
    ensures
        ({
            let n = covered(indexes.map_values(|i: u64| entry_bytes(i)), end) as int;
            &&& 0 <= n <= indexes.len()
            &&& forall|i: int| 0 <= i < indexes.len() ==> (#[trigger] indexes[i] < end <==> i < n)
        }),
    decreases indexes.len(),
{
    let keys = indexes.map_values(|i: u64| entry_bytes(i));
    if indexes.len() > 0 {
        law_entry_key_round_trip(indexes[0]);
        let rest = indexes.skip(1);
        assert(rest.map_values(|i: u64| entry_bytes(i)) =~= keys.skip(1));
        if indexes[0] < end {
            law_scan_covers_the_range(rest, end);
            let n = covered(keys.skip(1), end) as int;
            assert forall|i: int| 0 <= i < indexes.len() implies (#[trigger] indexes[i] < end <==> i
                < n + 1) by {
                if i > 0 {
                    assert(rest[i - 1] == indexes[i]);
                }
            }
        } else {
            assert forall|i: int| 0 <= i < indexes.len() implies (#[trigger] indexes[i] < end <==> i
                < 0) by {
                if i > 0 {
                    assert(indexes[0] < indexes[i]);
                }
            }
        }
    }
}

/// What a log holds: how far it was purged and where it ends.
#[derive(Debug, Clone, Copy, PartialEq, Eq, Structural)]
pub struct LogState {
    pub last_purged: Option<RaftLogId>,
    pub last: Option<RaftLogId>,
}

// -- writing -----------------------------------------------------------------

/// One write to the rows of a log.
pub enum LogWrite {
    Put { key: Vec<u8>, value: Vec<u8> },
    Delete { key: Vec<u8> },
    /// Remove every row from one key up to, and without, another.
    DeleteRange { from: Vec<u8>, to: Vec<u8> },
}

#[verifier::ext_equal]
pub enum LogWriteView {
    Put { key: Seq<u8>, value: Seq<u8> },
    Delete { key: Seq<u8> },
    DeleteRange { from: Seq<u8>, to: Seq<u8> },
}

impl View for LogWrite {
    type V = LogWriteView;

    open spec fn view(&self) -> LogWriteView {
        match self {
            LogWrite::Put { key, value } => LogWriteView::Put { key: key@, value: value@ },
            LogWrite::Delete { key } => LogWriteView::Delete { key: key@ },
            LogWrite::DeleteRange { from, to } => LogWriteView::DeleteRange {
                from: from@,
                to: to@,
            },
        }
    }
}

impl LogWriteView {
    /// The rows after the write.
    pub open spec fn after(self, rows: Records) -> Records {
        match self {
            LogWriteView::Put { key, value } => rows.insert(key, value),
            LogWriteView::Delete { key } => rows.remove(key),
            LogWriteView::DeleteRange { from, to } => Map::new(
                |k: Seq<u8>| rows.contains_key(k) && (key_before(k, from) || !key_before(k, to)),
                |k: Seq<u8>| rows[k],
            ),
        }
    }
}

pub open spec fn log_writes(writes: Seq<LogWrite>) -> Seq<LogWriteView> {
    writes.map_values(|w: LogWrite| w@)
}

/// The rows after a run of writes.
pub open spec fn after_writes(rows: Records, writes: Seq<LogWriteView>) -> Records
    decreases writes.len(),
{
    if writes.len() == 0 {
        rows
    } else {
        writes.last().after(after_writes(rows, writes.drop_last()))
    }
}

/// An entry with its serialized form.
pub struct EncodedEntry {
    pub log_id: RaftLogId,
    pub bytes: Vec<u8>,
}

/// The writes that append entries.
pub open spec fn append_writes(entries: Seq<EncodedEntry>) -> Seq<LogWriteView> {
    entries.map_values(
        |e: EncodedEntry|
            LogWriteView::Put { key: entry_bytes(e.log_id.index), value: e.bytes@ },
    )
}

/// How many bytes of keys and values an append writes, up to the greatest
/// number that can be counted.
pub open spec fn append_bytes(entries: Seq<EncodedEntry>) -> int
    decreases entries.len(),
{
    if entries.len() == 0 {
        0
    } else {
        let sum = append_bytes(entries.drop_last()) + 9 + entries.last().bytes@.len();
        if sum > usize::MAX {
            usize::MAX as int
        } else {
            sum
        }
    }
}

/// The writes that drop every entry from an index on.
pub open spec fn truncate_writes(index: u64) -> Seq<LogWriteView> {
    seq![
        LogWriteView::DeleteRange { from: entry_bytes(index), to: entry_bytes(u64::MAX) },
        LogWriteView::Delete { key: entry_bytes(u64::MAX) },
    ]
}

/// The writes that drop every entry up to an index. The marker goes first, so
/// that a recovery never reads for what was purged.
pub open spec fn purge_writes(index: u64, marker: Seq<u8>) -> Seq<LogWriteView> {
    seq![
        LogWriteView::Put { key: purged_bytes(), value: marker },
        LogWriteView::DeleteRange { from: entry_bytes(0), to: entry_bytes(index) },
        LogWriteView::Delete { key: entry_bytes(index) },
    ]
}

/// The log of one group.
#[derive(Debug, Clone, Copy, PartialEq, Eq, Structural)]
pub struct RocksLogStore {
    group: GroupId,
}

impl RocksLogStore {
    pub closed spec fn spec_group(&self) -> GroupId {
        self.group
    }

    pub fn new(group: GroupId) -> (s: RocksLogStore)
        ensures
            s.spec_group() == group,
    {
        RocksLogStore { group }
    }

    pub fn group(&self) -> (g: GroupId)
        ensures
            g == self.spec_group(),
    {
        self.group
    }

    /// The state of a log, from its purge marker and its last entry. A log that
    /// holds no entry ends where it was purged.
    pub fn get_log_state(&self, last_purged: Option<RaftLogId>, last_entry: Option<RaftLogId>) -> (s:
        LogState)
        ensures
            s.last_purged == last_purged,
            s.last == if last_entry is Some {
                last_entry
            } else {
                last_purged
            },
    {
        match last_entry {
            Some(id) => LogState { last_purged, last: Some(id) },
            None => LogState { last_purged, last: last_purged },
        }
    }

    /// The committed position, which is stored as an optional value.
    pub fn read_committed(&self, stored: Option<Option<RaftLogId>>) -> (r: Option<RaftLogId>)
        ensures
            r == match stored {
                Some(position) => position,
                None => None,
            },
    {
        match stored {
            Some(position) => position,
            None => None,
        }
    }

    /// The writes that append entries, with the bytes they carry.
    pub fn append(&self, entries: &Vec<EncodedEntry>) -> (r: (Vec<LogWrite>, usize))
        ensures
            log_writes(r.0@) == append_writes(entries@),
            r.1 == append_bytes(entries@),
    {
        let mut batch: Vec<LogWrite> = Vec::new();
        let mut wal_bytes: usize = 0;
        let mut i: usize = 0;
        assert(entries@.take(0) =~= Seq::<EncodedEntry>::empty());
        while i < entries.len()
            invariant
                i <= entries@.len(),
                batch@.len() == i,
                forall|j: int|
                    0 <= j < i ==> (#[trigger] batch@[j])@ == append_writes(entries@)[j],
                wal_bytes == append_bytes(entries@.take(i as int)),
            decreases entries@.len() - i,
        {
            let entry = &entries[i];
            let key = entry_key(entry.log_id.index);
            let value = copy_bytes(&entry.bytes);
            proof {
                lemma_be_bytes_len(entry.log_id.index as nat, 8);
                assert(entries@.take(i + 1).drop_last() =~= entries@.take(i as int));
                assert(entries@.take(i + 1).last() == entry);
            }
            wal_bytes = wal_bytes.saturating_add(key.len().saturating_add(value.len()));
            batch.push(LogWrite::Put { key, value });
            i += 1;
        }
        assert(entries@.take(i as int) =~= entries@);
        assert(log_writes(batch@) =~= append_writes(entries@));
        (batch, wal_bytes)
    }

    /// The writes that drop every entry from a position on.
    pub fn truncate(&self, log_id: RaftLogId) -> (writes: Vec<LogWrite>)
        ensures
            log_writes(writes@) == truncate_writes(log_id.index),
    {
        let mut writes: Vec<LogWrite> = Vec::new();
        writes.push(
            LogWrite::DeleteRange { from: entry_key(log_id.index), to: entry_key(u64::MAX) },
        );
        writes.push(LogWrite::Delete { key: entry_key(u64::MAX) });
        assert(log_writes(writes@) =~= truncate_writes(log_id.index));
        writes
    }

    /// The writes that drop every entry up to a position and record it. The log is
    /// what lost state is rebuilt from, so a purge waits until the state up to its
    /// position is durable: none are given before.
    pub fn purge(&self, durable: Option<RaftLogId>, log_id: RaftLogId) -> (r: Option<Vec<LogWrite>>)
        ensures
            match r {
                Some(writes) => durable_through(durable, log_id) && log_writes(writes@)
                    == purge_writes(log_id.index, log_id.wire()),
                None => !durable_through(durable, log_id),
            },
    {
        if !is_durable_through(durable, log_id) {
            return None;
        }
        let mut writes: Vec<LogWrite> = Vec::new();
        writes.push(LogWrite::Put { key: purged_key(), value: log_id.to_bytes() });
        writes.push(LogWrite::DeleteRange { from: entry_key(0), to: entry_key(log_id.index) });
        writes.push(LogWrite::Delete { key: entry_key(log_id.index) });
        assert(log_writes(writes@) =~= purge_writes(log_id.index, log_id.wire()));
        Some(writes)
    }
}

/// Whether the state up to a position is durable, given up to where it is.
pub open spec fn durable_through(durable: Option<RaftLogId>, target: RaftLogId) -> bool {
    durable matches Some(d) && d.index >= target.index
}

/// Tell whether the state up to a position is durable.
pub fn is_durable_through(durable: Option<RaftLogId>, target: RaftLogId) -> (yes: bool)
    ensures
        yes == durable_through(durable, target),
{
    match durable {
        Some(d) => d.index >= target.index,
        None => false,
    }
}

/// The entry at an index.
pub open spec fn entry_at(rows: Records, index: u64) -> Option<Seq<u8>> {
    if rows.contains_key(entry_bytes(index)) {
        Some(rows[entry_bytes(index)])
    } else {
        None
    }
}

/// Whether two logs have the same markers.
pub open spec fn same_markers(a: Records, b: Records) -> bool {
    &&& a.contains_key(vote_bytes()) == b.contains_key(vote_bytes())
    &&& a.contains_key(vote_bytes()) ==> a[vote_bytes()] == b[vote_bytes()]
    &&& a.contains_key(committed_bytes()) == b.contains_key(committed_bytes())
    &&& a.contains_key(committed_bytes()) ==> a[committed_bytes()] == b[committed_bytes()]
}

/// A truncation drops the entries from its index on, and only those; the vote,
/// the purge marker and the committed position stay.
pub proof fn law_truncate_drops_the_tail(rows: Records, index: u64, i: u64)
    ensures
        ({
            let t = after_writes(rows, truncate_writes(index));
            &&& entry_at(t, i) == if i < index {
                entry_at(rows, i)
            } else {
                None
            }
            &&& same_markers(t, rows)
            &&& t.contains_key(purged_bytes()) == rows.contains_key(purged_bytes())
            &&& t.contains_key(purged_bytes()) ==> t[purged_bytes()] == rows[purged_bytes()]
        }),
{
    reveal_with_fuel(after_writes, 3);
    let w = truncate_writes(index);
    assert(w.drop_last() =~= seq![w[0]]);
    assert(w.drop_last().drop_last() =~= Seq::<LogWriteView>::empty());
    law_entries_stored_in_order(i, index);
    law_entries_stored_in_order(i, u64::MAX);
    law_entry_key_round_trip(i);
    law_entry_key_round_trip(u64::MAX);
    lemma_marker_order(index);
    lemma_marker_order(u64::MAX);
}

/// A purge drops the entries up to its index, and only those, and records where
/// it went; the vote and the committed position stay.
pub proof fn law_purge_drops_the_head(rows: Records, index: u64, marker: Seq<u8>, i: u64)
    ensures
        ({
            let t = after_writes(rows, purge_writes(index, marker));
            &&& entry_at(t, i) == if i > index {
                entry_at(rows, i)
            } else {
                None
            }
            &&& t.contains_key(purged_bytes()) && t[purged_bytes()] == marker
            &&& same_markers(t, rows)
        }),
{
    reveal_with_fuel(after_writes, 4);
    let w = purge_writes(index, marker);
    assert(w.drop_last() =~= seq![w[0], w[1]]);
    assert(w.drop_last().drop_last() =~= seq![w[0]]);
    assert(w.drop_last().drop_last().drop_last() =~= Seq::<LogWriteView>::empty());
    law_entries_stored_in_order(i, index);
    law_entries_stored_in_order(i, 0);
    law_entry_key_round_trip(i);
    law_entry_key_round_trip(index);
    lemma_marker_order(index);
    lemma_marker_order(0);
    assert(purged_bytes()[1] == 0x70);
    assert(vote_bytes()[1] == 0x76);
    assert(committed_bytes()[1] == 0x63);
    assert(entry_bytes(i)[0] == ENTRY_PREFIX);
    assert(entry_bytes(index)[0] == ENTRY_PREFIX);
}

/// A purge that goes ahead drops no entry whose effect could still be lost: the
/// state is durable up to every entry that it drops.
pub proof fn law_purge_drops_durable_entries_only(
    rows: Records,
    durable: Option<RaftLogId>,
    log_id: RaftLogId,
    i: u64,
)
    requires
        durable_through(durable, log_id),
        entry_at(rows, i) is Some,
        entry_at(after_writes(rows, purge_writes(log_id.index, log_id.wire())), i) is None,
    ensures
        durable matches Some(d) && i <= d.index,
{
    law_purge_drops_the_head(rows, log_id.index, log_id.wire(), i);
}

/// Appended entries are read back at their indexes, and no other index changes.
pub proof fn law_append_is_read_back(rows: Records, entries: Seq<EncodedEntry>, i: u64)
    requires
        forall|a: int, b: int|
            0 <= a < b < entries.len() ==> (#[trigger] entries[a]).log_id.index != (
            #[trigger] entries[b]).log_id.index,
    ensures
        ({
            let t = after_writes(rows, append_writes(entries));
            &&& forall|a: int|
                0 <= a < entries.len() && (#[trigger] entries[a]).log_id.index == i ==> entry_at(
                    t,
                    i,
                ) == Some(entries[a].bytes@)
            &&& (forall|a: int| 0 <= a < entries.len() ==> (#[trigger] entries[a]).log_id.index != i)
                ==> entry_at(t, i) == entry_at(rows, i)
        }),
    decreases entries.len(),
{
    let w = append_writes(entries);
    if entries.len() > 0 {
        let head = entries.drop_last();
        assert forall|a: int, b: int| 0 <= a < b < head.len() implies (#[trigger] head[a]).log_id.index
            != (#[trigger] head[b]).log_id.index by {
            assert(entries[a].log_id.index != entries[b].log_id.index);
        }
        law_append_is_read_back(rows, head, i);
        assert(w.drop_last() =~= append_writes(head));
        let last = entries.last();
        law_entry_key_round_trip(i);
        law_entry_key_round_trip(last.log_id.index);
        let t = after_writes(rows, w);
        let u = after_writes(rows, append_writes(head));
        assert forall|a: int|
            0 <= a < entries.len() && (#[trigger] entries[a]).log_id.index == i implies entry_at(t, i)
            == Some(entries[a].bytes@) by {
            if a < head.len() {
                assert(head[a] == entries[a]);
                assert(entries[a].log_id.index != entries[entries.len() - 1].log_id.index);
            }
        }
        if forall|a: int| 0 <= a < entries.len() ==> (#[trigger] entries[a]).log_id.index != i {
            assert forall|a: int| 0 <= a < head.len() implies (#[trigger] head[a]).log_id.index != i by {
                assert(head[a] == entries[a]);
            }
            assert(entries[entries.len() - 1].log_id.index != i);
        }
    }
}

/// A position is durable if and only if some durable position is at or beyond it.
pub proof fn law_durability_is_reached(durable: Option<RaftLogId>, target: RaftLogId)
    ensures
        durable_through(durable, target) <==> exists|d: RaftLogId|
            durable == Some(d) && target.index <= (#[trigger] d.index),
{
}

/// What an append costs is what it writes: for each entry its key of nine bytes and
/// its own bytes, up to the largest number that counts them.
pub proof fn law_append_cost(entries: Seq<EncodedEntry>, e: EncodedEntry)
    ensures
        append_bytes(Seq::<EncodedEntry>::empty()) == 0,
        ({
            let sum = append_bytes(entries) + entry_bytes(e.log_id.index).len() + e.bytes@.len();
            append_bytes(entries.push(e)) == if sum <= usize::MAX {
                sum
            } else {
                usize::MAX as int
            }
        }),
{
    lemma_be_bytes_len(e.log_id.index as nat, 8);
    assert(entries.push(e).drop_last() =~= entries);
}

} // verus!
