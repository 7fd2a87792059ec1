//! Opt-in profiling of the write path: counters per stage, and the figures of a
//! report over them.
use crate::text::off_by_default;
use crate::transport::MsgType;
use crate::types::GroupId;
use vstd::prelude::*;

verus! {

/// A stage of the write path.
#[derive(Debug, Clone, Copy, PartialEq, Eq, Structural)]
pub enum WriteStage {
    ClientTransportCall,
    ClientGatewayHandle,
    RaftClientWrite,
    RaftAppendTransportCall,
    RaftAppendHandle,
    ClientReplyQueueWait,
    RaftReplyQueueWait,
    ClientDealerQueueWait,
    RaftDealerQueueWait,
    ClientDealerRoundTrip,
    RaftDealerRoundTrip,
    ClientDealerWaiterResume,
    RaftDealerWaiterResume,
    ClientRouterSchedule,
    RaftRouterSchedule,
    ClientRouterHandler,
    RaftRouterHandler,
    ClientReplyEnqueue,
    RaftReplyEnqueue,
    ClientRouterSend,
    RaftRouterSend,
    ClientEnvelopeEncode,
    ClientEnvelopeDecode,
    RaftEnvelopeEncode,
    RaftEnvelopeDecode,
    LogEncode,
    WalCapacityWait,
    WalAppendLockWait,
    WalWriteUnsynced,
    WalDurabilityWait,
    WalBatchCollect,
    WalFlush,
    LogWriteSynced,
    SaveVoteSynced,
    SaveCommittedWal,
    SaveCommittedSynced,
    StateApplyTotal,
    StateApplyCapacityWait,
    StateApplyWalWrite,
    StateApplyDurabilityWait,
    StateApplySynced,
}

/// How many stages there are.
pub const STAGES: usize = 41;

impl WriteStage {
    /// The stage's place in a report.
    pub open spec fn spec_index(self) -> int {
        match self {
            WriteStage::ClientTransportCall => 0,
            WriteStage::ClientGatewayHandle => 1,
            WriteStage::RaftClientWrite => 2,
            WriteStage::RaftAppendTransportCall => 3,
            WriteStage::RaftAppendHandle => 4,
            WriteStage::ClientReplyQueueWait => 5,
            WriteStage::RaftReplyQueueWait => 6,
            WriteStage::ClientDealerQueueWait => 7,
            WriteStage::RaftDealerQueueWait => 8,
            WriteStage::ClientDealerRoundTrip => 9,
            WriteStage::RaftDealerRoundTrip => 10,
            WriteStage::ClientDealerWaiterResume => 11,
            WriteStage::RaftDealerWaiterResume => 12,
            WriteStage::ClientRouterSchedule => 13,
            WriteStage::RaftRouterSchedule => 14,
            WriteStage::ClientRouterHandler => 15,
            WriteStage::RaftRouterHandler => 16,
            WriteStage::ClientReplyEnqueue => 17,
            WriteStage::RaftReplyEnqueue => 18,
            WriteStage::ClientRouterSend => 19,
            WriteStage::RaftRouterSend => 20,
            WriteStage::ClientEnvelopeEncode => 21,
            WriteStage::ClientEnvelopeDecode => 22,
            WriteStage::RaftEnvelopeEncode => 23,
            WriteStage::RaftEnvelopeDecode => 24,
            WriteStage::LogEncode => 25,
            WriteStage::WalCapacityWait => 26,
            WriteStage::WalAppendLockWait => 27,
            WriteStage::WalWriteUnsynced => 28,
            WriteStage::WalDurabilityWait => 29,
            WriteStage::WalBatchCollect => 30,
            WriteStage::WalFlush => 31,
            WriteStage::LogWriteSynced => 32,
            WriteStage::SaveVoteSynced => 33,
            WriteStage::SaveCommittedWal => 34,
            WriteStage::SaveCommittedSynced => 35,
            WriteStage::StateApplyTotal => 36,
            WriteStage::StateApplyCapacityWait => 37,
            WriteStage::StateApplyWalWrite => 38,
            WriteStage::StateApplyDurabilityWait => 39,
            WriteStage::StateApplySynced => 40,
        }
    }

    /// The stage at a place.
    pub open spec fn at(index: int) -> WriteStage {
        choose|s: WriteStage| s.spec_index() == index
    }

    /// The stage's name in a report.
    pub open spec fn spec_name(self) -> Seq<char> {
        match self {
            WriteStage::ClientTransportCall => "client transport call"@,
            WriteStage::ClientGatewayHandle => "client gateway handle"@,
            WriteStage::RaftClientWrite => "raft client_write"@,
            WriteStage::RaftAppendTransportCall => "Raft append transport"@,
            WriteStage::RaftAppendHandle => "Raft append handler"@,
            WriteStage::ClientReplyQueueWait => "client reply queue"@,
            WriteStage::RaftReplyQueueWait => "Raft reply queue"@,
            WriteStage::ClientDealerQueueWait => "client DEALER queue->send"@,
            WriteStage::RaftDealerQueueWait => "Raft DEALER queue->send"@,
            WriteStage::ClientDealerRoundTrip => "client DEALER wire roundtrip"@,
            WriteStage::RaftDealerRoundTrip => "Raft DEALER wire roundtrip"@,
            WriteStage::ClientDealerWaiterResume => "client reply->waiter resume"@,
            WriteStage::RaftDealerWaiterResume => "Raft reply->waiter resume"@,
            WriteStage::ClientRouterSchedule => "client ROUTER->handler start"@,
            WriteStage::RaftRouterSchedule => "Raft ROUTER->handler start"@,
            WriteStage::ClientRouterHandler => "client ROUTER handler total"@,
            WriteStage::RaftRouterHandler => "Raft ROUTER handler total"@,
            WriteStage::ClientReplyEnqueue => "client handler->reply enqueue"@,
            WriteStage::RaftReplyEnqueue => "Raft handler->reply enqueue"@,
            WriteStage::ClientRouterSend => "client ROUTER reply send"@,
            WriteStage::RaftRouterSend => "Raft ROUTER reply send"@,
            WriteStage::ClientEnvelopeEncode => "client envelope encode"@,
            WriteStage::ClientEnvelopeDecode => "client envelope decode"@,
            WriteStage::RaftEnvelopeEncode => "Raft envelope encode"@,
            WriteStage::RaftEnvelopeDecode => "Raft envelope decode"@,
            WriteStage::LogEncode => "log encode/batch"@,
            WriteStage::WalCapacityWait => "WAL capacity wait"@,
            WriteStage::WalAppendLockWait => "WAL append-lock wait"@,
            WriteStage::WalWriteUnsynced => "WAL non-sync write"@,
            WriteStage::WalDurabilityWait => "WAL append->callback"@,
            WriteStage::WalBatchCollect => "WAL batch collection"@,
            WriteStage::WalFlush => "WAL flush_wal(true)"@,
            WriteStage::LogWriteSynced => "log sync write"@,
            WriteStage::SaveVoteSynced => "vote sync write"@,
            WriteStage::SaveCommittedWal => "committed WAL write"@,
            WriteStage::SaveCommittedSynced => "committed sync write"@,
            WriteStage::StateApplyTotal => "state apply total"@,
            WriteStage::StateApplyCapacityWait => "state capacity wait"@,
            WriteStage::StateApplyWalWrite => "state non-sync write"@,
            WriteStage::StateApplyDurabilityWait => "state durability wait"@,
            WriteStage::StateApplySynced => "state apply sync write"@,
        }
    }

    /// The stage's place in a report.
    pub fn index(self) -> (i: usize)
        ensures
            i == self.spec_index(),
            i < STAGES,
    {
        match self {
            WriteStage::ClientTransportCall => 0,
            WriteStage::ClientGatewayHandle => 1,
            WriteStage::RaftClientWrite => 2,
            WriteStage::RaftAppendTransportCall => 3,
            WriteStage::RaftAppendHandle => 4,
            WriteStage::ClientReplyQueueWait => 5,
            WriteStage::RaftReplyQueueWait => 6,
            WriteStage::ClientDealerQueueWait => 7,
            WriteStage::RaftDealerQueueWait => 8,
            WriteStage::ClientDealerRoundTrip => 9,
            WriteStage::RaftDealerRoundTrip => 10,
            WriteStage::ClientDealerWaiterResume => 11,
            WriteStage::RaftDealerWaiterResume => 12,
            WriteStage::ClientRouterSchedule => 13,
            WriteStage::RaftRouterSchedule => 14,
            WriteStage::ClientRouterHandler => 15,
            WriteStage::RaftRouterHandler => 16,
            WriteStage::ClientReplyEnqueue => 17,
            WriteStage::RaftReplyEnqueue => 18,
            WriteStage::ClientRouterSend => 19,
            WriteStage::RaftRouterSend => 20,
            WriteStage::ClientEnvelopeEncode => 21,
            WriteStage::ClientEnvelopeDecode => 22,
            WriteStage::RaftEnvelopeEncode => 23,
            WriteStage::RaftEnvelopeDecode => 24,
            WriteStage::LogEncode => 25,
            WriteStage::WalCapacityWait => 26,
            WriteStage::WalAppendLockWait => 27,
            WriteStage::WalWriteUnsynced => 28,
            WriteStage::WalDurabilityWait => 29,
            WriteStage::WalBatchCollect => 30,
            WriteStage::WalFlush => 31,
            WriteStage::LogWriteSynced => 32,
            WriteStage::SaveVoteSynced => 33,
            WriteStage::SaveCommittedWal => 34,
            WriteStage::SaveCommittedSynced => 35,
            WriteStage::StateApplyTotal => 36,
            WriteStage::StateApplyCapacityWait => 37,
            WriteStage::StateApplyWalWrite => 38,
            WriteStage::StateApplyDurabilityWait => 39,
            WriteStage::StateApplySynced => 40,
        }
    }

    /// The stage at a place.
    pub fn from_index(index: usize) -> (s: WriteStage)
        requires
            index < STAGES,
        ensures
            s == WriteStage::at(index as int),
    {
        let s = match index {
            0 => WriteStage::ClientTransportCall,
            1 => WriteStage::ClientGatewayHandle,
            2 => WriteStage::RaftClientWrite,
            3 => WriteStage::RaftAppendTransportCall,
            4 => WriteStage::RaftAppendHandle,
            5 => WriteStage::ClientReplyQueueWait,
            6 => WriteStage::RaftReplyQueueWait,
            7 => WriteStage::ClientDealerQueueWait,
            8 => WriteStage::RaftDealerQueueWait,
            9 => WriteStage::ClientDealerRoundTrip,
            10 => WriteStage::RaftDealerRoundTrip,
            11 => WriteStage::ClientDealerWaiterResume,
            12 => WriteStage::RaftDealerWaiterResume,
            13 => WriteStage::ClientRouterSchedule,
            14 => WriteStage::RaftRouterSchedule,
            15 => WriteStage::ClientRouterHandler,
            16 => WriteStage::RaftRouterHandler,
            17 => WriteStage::ClientReplyEnqueue,
            18 => WriteStage::RaftReplyEnqueue,
            19 => WriteStage::ClientRouterSend,
            20 => WriteStage::RaftRouterSend,
            21 => WriteStage::ClientEnvelopeEncode,
            22 => WriteStage::ClientEnvelopeDecode,
            23 => WriteStage::RaftEnvelopeEncode,
            24 => WriteStage::RaftEnvelopeDecode,
            25 => WriteStage::LogEncode,
            26 => WriteStage::WalCapacityWait,
            27 => WriteStage::WalAppendLockWait,
            28 => WriteStage::WalWriteUnsynced,
            29 => WriteStage::WalDurabilityWait,
            30 => WriteStage::WalBatchCollect,
            31 => WriteStage::WalFlush,
            32 => WriteStage::LogWriteSynced,
            33 => WriteStage::SaveVoteSynced,
            34 => WriteStage::SaveCommittedWal,
            35 => WriteStage::SaveCommittedSynced,
            36 => WriteStage::StateApplyTotal,
            37 => WriteStage::StateApplyCapacityWait,
            38 => WriteStage::StateApplyWalWrite,
            39 => WriteStage::StateApplyDurabilityWait,
            _ => WriteStage::StateApplySynced,
        };
        proof {
            law_stages_have_places(s, WriteStage::at(index as int));
        }
        s
    }

    /// The stage's name in a report.
    pub fn name(self) -> (s: &'static str)
        ensures
            s@ == self.spec_name(),
    {
        match self {
            WriteStage::ClientTransportCall => "client transport call",
            WriteStage::ClientGatewayHandle => "client gateway handle",
            WriteStage::RaftClientWrite => "raft client_write",
            WriteStage::RaftAppendTransportCall => "Raft append transport",
            WriteStage::RaftAppendHandle => "Raft append handler",
            WriteStage::ClientReplyQueueWait => "client reply queue",
            WriteStage::RaftReplyQueueWait => "Raft reply queue",
            WriteStage::ClientDealerQueueWait => "client DEALER queue->send",
            WriteStage::RaftDealerQueueWait => "Raft DEALER queue->send",
            WriteStage::ClientDealerRoundTrip => "client DEALER wire roundtrip",
            WriteStage::RaftDealerRoundTrip => "Raft DEALER wire roundtrip",
            WriteStage::ClientDealerWaiterResume => "client reply->waiter resume",
            WriteStage::RaftDealerWaiterResume => "Raft reply->waiter resume",
            WriteStage::ClientRouterSchedule => "client ROUTER->handler start",
            WriteStage::RaftRouterSchedule => "Raft ROUTER->handler start",
            WriteStage::ClientRouterHandler => "client ROUTER handler total",
            WriteStage::RaftRouterHandler => "Raft ROUTER handler total",
            WriteStage::ClientReplyEnqueue => "client handler->reply enqueue",
            WriteStage::RaftReplyEnqueue => "Raft handler->reply enqueue",
            WriteStage::ClientRouterSend => "client ROUTER reply send",
            WriteStage::RaftRouterSend => "Raft ROUTER reply send",
            WriteStage::ClientEnvelopeEncode => "client envelope encode",
            WriteStage::ClientEnvelopeDecode => "client envelope decode",
            WriteStage::RaftEnvelopeEncode => "Raft envelope encode",
            WriteStage::RaftEnvelopeDecode => "Raft envelope decode",
            WriteStage::LogEncode => "log encode/batch",
            WriteStage::WalCapacityWait => "WAL capacity wait",
            WriteStage::WalAppendLockWait => "WAL append-lock wait",
            WriteStage::WalWriteUnsynced => "WAL non-sync write",
            WriteStage::WalDurabilityWait => "WAL append->callback",
            WriteStage::WalBatchCollect => "WAL batch collection",
            WriteStage::WalFlush => "WAL flush_wal(true)",
            WriteStage::LogWriteSynced => "log sync write",
            WriteStage::SaveVoteSynced => "vote sync write",
            WriteStage::SaveCommittedWal => "committed WAL write",
            WriteStage::SaveCommittedSynced => "committed sync write",
            WriteStage::StateApplyTotal => "state apply total",
            WriteStage::StateApplyCapacityWait => "state capacity wait",
            WriteStage::StateApplyWalWrite => "state non-sync write",
            WriteStage::StateApplyDurabilityWait => "state durability wait",
            WriteStage::StateApplySynced => "state apply sync write",
        }
    }
}

/// Every stage has a place of its own in a report.
pub proof fn law_stages_have_places(a: WriteStage, b: WriteStage)
    ensures
        0 <= a.spec_index() < STAGES,
        a.spec_index() == b.spec_index() ==> a == b,
{
}

/// What kind of profiled message a frame is.
#[derive(Debug, Clone, Copy, PartialEq, Eq, Structural)]
pub enum TransportProfileClass {
    Client,
    DataRaftAppend,
}

/// The profiled kind of a message: client operations, and the appends of data
/// groups.
pub fn transport_profile_class(msg_type: MsgType, group_id: GroupId) -> (r: Option<
    TransportProfileClass,
>)
    ensures
        r == match (msg_type, group_id) {
            (MsgType::ClientOp, _) => Some(TransportProfileClass::Client),
            (MsgType::RaftAppend, GroupId::Data(_)) => Some(TransportProfileClass::DataRaftAppend),
            _ => None,
        },
{
    match (msg_type, group_id) {
        (MsgType::ClientOp, _) => Some(TransportProfileClass::Client),
        (MsgType::RaftAppend, GroupId::Data(_)) => Some(TransportProfileClass::DataRaftAppend),
        _ => None,
    }
}

impl TransportProfileClass {
    /// The stage that stands for this kind of message.
    pub fn stage(self, client: WriteStage, raft: WriteStage) -> (s: WriteStage)
        ensures
            s == if self is Client {
                client
            } else {
                raft
            },
    {
        match self {
            TransportProfileClass::Client => client,
            TransportProfileClass::DataRaftAppend => raft,
        }
    }
}

/// What was recorded of one stage.
#[derive(Debug, Clone, Copy, PartialEq, Eq, Structural)]
pub struct StageCounters {
    pub calls: u64,
    pub total_ns: u64,
    pub max_ns: u64,
}

/// What was recorded beside the stages.
#[derive(Debug, Clone, Copy, PartialEq, Eq, Structural)]
pub struct BatchCounters {
    pub durability_log_writes: u64,
    pub durability_state_writes: u64,
    pub durability_logical_bytes: u64,
    pub durability_max_batch: u64,
    pub committed_markers_folded: u64,
    pub apply_batches: u64,
    pub apply_entries: u64,
    pub apply_mutations: u64,
    pub apply_logical_bytes: u64,
    pub apply_max_entries: u64,
    pub client_envelope_encode_bytes: u64,
    pub client_envelope_decode_bytes: u64,
    pub raft_envelope_encode_bytes: u64,
    pub raft_envelope_decode_bytes: u64,
}

/// The sum that a counter shows: it starts over past the greatest number.
pub open spec fn counted(a: u64, b: u64) -> u64 {
    if a + b > u64::MAX {
        (a + b - 0x1_0000_0000_0000_0000) as u64
    } else {
        (a + b) as u64
    }
}

/// The sum that stops at the greatest number.
pub open spec fn capped(a: u64, b: u64) -> u64 {
    if a + b > u64::MAX {
        u64::MAX
    } else {
        (a + b) as u64
    }
}

/// The greater of two numbers.
pub open spec fn greater(a: u64, b: u64) -> u64 {
    if a < b {
        b
    } else {
        a
    }
}

fn count(a: u64, b: u64) -> (c: u64)
    ensures
        c == counted(a, b),
{
    a.wrapping_add(b)
}

fn larger(a: u64, b: u64) -> (c: u64)
    ensures
        c == greater(a, b),
{
    if a < b {
        b
    } else {
        a
    }
}

/// The write path's counters. Nothing is recorded unless profiling is on.
pub struct WritePath {
    enabled: bool,
    stages: Vec<StageCounters>,
    batches: BatchCounters,
}

/// The content of the write path's counters.
#[verifier::ext_equal]
pub struct WritePathView {
    pub enabled: bool,
    pub stages: Seq<StageCounters>,
    pub batches: BatchCounters,
}

impl View for WritePath {
    type V = WritePathView;

    closed spec fn view(&self) -> WritePathView {
        WritePathView { enabled: self.enabled, stages: self.stages@, batches: self.batches }
    }
}

/// A stage at which nothing was recorded.
pub open spec fn idle_stage() -> StageCounters {
    StageCounters { calls: 0, total_ns: 0, max_ns: 0 }
}

/// No batches recorded.
pub open spec fn idle_batches() -> BatchCounters {
    BatchCounters {
        durability_log_writes: 0,
        durability_state_writes: 0,
        durability_logical_bytes: 0,
        durability_max_batch: 0,
        committed_markers_folded: 0,
        apply_batches: 0,
        apply_entries: 0,
        apply_mutations: 0,
        apply_logical_bytes: 0,
        apply_max_entries: 0,
        client_envelope_encode_bytes: 0,
        client_envelope_decode_bytes: 0,
        raft_envelope_encode_bytes: 0,
        raft_envelope_decode_bytes: 0,
    }
}

/// Counters that have recorded nothing.
pub open spec fn idle(enabled: bool) -> WritePathView {
    WritePathView {
        enabled,
        stages: Seq::new(STAGES as nat, |i: int| idle_stage()),
        batches: idle_batches(),
    }
}

/// A stage's counters after a call that took so many nanoseconds.
pub open spec fn after_call(c: StageCounters, nanos: u64) -> StageCounters {
    StageCounters {
        calls: counted(c.calls, 1),
        total_ns: counted(c.total_ns, nanos),
        max_ns: greater(c.max_ns, nanos),
    }
}

/// The counters after a stage took so many nanoseconds.
pub open spec fn after_stage(w: WritePathView, stage: WriteStage, nanos: u64) -> WritePathView {
    let i = stage.spec_index();
    WritePathView { stages: w.stages.update(i, after_call(w.stages[i], nanos)), ..w }
}

fn no_batches() -> (b: BatchCounters)
    ensures
        b == idle_batches(),
{
    BatchCounters {
        durability_log_writes: 0,
        durability_state_writes: 0,
        durability_logical_bytes: 0,
        durability_max_batch: 0,
        committed_markers_folded: 0,
        apply_batches: 0,
        apply_entries: 0,
        apply_mutations: 0,
        apply_logical_bytes: 0,
        apply_max_entries: 0,
        client_envelope_encode_bytes: 0,
        client_envelope_decode_bytes: 0,
        raft_envelope_encode_bytes: 0,
        raft_envelope_decode_bytes: 0,
    }
}

/// Whether a flag's text switches profiling on.
pub fn write_path_enabled(flag: Option<&String>) -> (on: bool)
    ensures
        on == (flag matches Some(t) && (t@ == "1"@ || t@ == "true"@ || t@ == "on"@)),
{
    off_by_default(flag)
}

/// A running measurement of one stage.
#[derive(Debug, Clone, Copy, PartialEq, Eq, Structural)]
pub struct StageTimer {
    pub stage: WriteStage,
    /// When it started, in nanoseconds; nothing unless profiling is on.
    pub started: Option<u128>,
}

/// Start to measure a stage. The time is taken only where profiling is on.
pub fn timer(profile: &WritePath, stage: WriteStage, now: Option<u128>) -> (t: StageTimer)
    ensures
        t.stage == stage,
        t.started == if profile@.enabled {
            now
        } else {
            None
        },
{
    StageTimer {
        stage,
        started: if profile.enabled {
            now
        } else {
            None
        },
    }
}

/// The nanoseconds from one time to another, up to the greatest number; none
/// where the clock went back.
pub open spec fn nanos_between(started: u128, now: u128) -> u64 {
    if now < started {
        0
    } else if now - started > u64::MAX {
        u64::MAX
    } else {
        (now - started) as u64
    }
}

/// The figures of one stage in a report.
#[derive(Debug, Clone, Copy, PartialEq, Eq, Structural)]
pub struct StageFigures {
    pub stage: WriteStage,
    pub counters: StageCounters,
}

/// The figures of the durability batches in a report.
#[derive(Debug, Clone, Copy, PartialEq, Eq, Structural)]
pub struct DurabilityFigures {
    pub flushes: u64,
    pub log_writes: u64,
    pub state_writes: u64,
    pub writes: u64,
    pub max_batch: u64,
    pub logical_bytes: u64,
}

/// The figures of the apply batches in a report.
#[derive(Debug, Clone, Copy, PartialEq, Eq, Structural)]
pub struct ApplyFigures {
    pub batches: u64,
    pub entries: u64,
    pub max_entries: u64,
    pub mutations: u64,
    pub logical_bytes: u64,
    pub committed_markers_folded: u64,
}

/// The figures of the envelopes in a report.
#[derive(Debug, Clone, Copy, PartialEq, Eq, Structural)]
pub struct EnvelopeFigures {
    pub client_encoded: u64,
    pub client_decoded: u64,
    pub raft_encoded: u64,
    pub raft_decoded: u64,
}

/// What a report shows.
pub struct WritePathReport {
    pub stages: Vec<StageFigures>,
    pub durability: Option<DurabilityFigures>,
    pub apply: Option<ApplyFigures>,
    pub envelopes: Option<EnvelopeFigures>,
}

/// The content of a report.
#[verifier::ext_equal]
pub struct ReportView {
    pub stages: Seq<StageFigures>,
    pub durability: Option<DurabilityFigures>,
    pub apply: Option<ApplyFigures>,
    pub envelopes: Option<EnvelopeFigures>,
}

impl View for WritePathReport {
    type V = ReportView;

    open spec fn view(&self) -> ReportView {
        ReportView {
            stages: self.stages@,
            durability: self.durability,
            apply: self.apply,
            envelopes: self.envelopes,
        }
    }
}

/// The figures of the first stages: of those that were called at all.
pub open spec fn called_stages(stages: Seq<StageCounters>, n: int) -> Seq<StageFigures>
    decreases n,
{
    if n <= 0 {
        Seq::empty()
    } else {
        let counters = stages[n - 1];
        let head = called_stages(stages, n - 1);
        if counters.calls == 0 {
            head
        } else {
            head.push(StageFigures { stage: WriteStage::at(n - 1), counters })
        }
    }
}

/// What the counters report. A part with nothing recorded is left out.
pub open spec fn figures(w: WritePathView) -> Option<ReportView> {
    if !w.enabled {
        None
    } else {
        let b = w.batches;
        let flushes = w.stages[WriteStage::WalFlush.spec_index()].calls;
        Some(
            ReportView {
                stages: called_stages(w.stages, STAGES as int),
                durability: if flushes > 0 {
                    Some(
                        DurabilityFigures {
                            flushes,
                            log_writes: b.durability_log_writes,
                            state_writes: b.durability_state_writes,
                            writes: capped(b.durability_log_writes, b.durability_state_writes),
                            max_batch: b.durability_max_batch,
                            logical_bytes: b.durability_logical_bytes,
                        },
                    )
                } else {
                    None
                },
                apply: if b.apply_batches > 0 {
                    Some(
                        ApplyFigures {
                            batches: b.apply_batches,
                            entries: b.apply_entries,
                            max_entries: b.apply_max_entries,
                            mutations: b.apply_mutations,
                            logical_bytes: b.apply_logical_bytes,
                            committed_markers_folded: b.committed_markers_folded,
                        },
                    )
                } else {
                    None
                },
                envelopes: if b.client_envelope_encode_bytes > 0 || b.client_envelope_decode_bytes
                    > 0 || b.raft_envelope_encode_bytes > 0 || b.raft_envelope_decode_bytes > 0 {
                    Some(
                        EnvelopeFigures {
                            client_encoded: b.client_envelope_encode_bytes,
                            client_decoded: b.client_envelope_decode_bytes,
                            raft_encoded: b.raft_envelope_encode_bytes,
                            raft_decoded: b.raft_envelope_decode_bytes,
                        },
                    )
                } else {
                    None
                },
            },
        )
    }
}

/// The counters after an envelope was encoded or decoded; other messages are not
/// profiled.
pub open spec fn after_envelope(
    w: WritePathView,
    msg_type: MsgType,
    encode: bool,
    nanos: u64,
    bytes: u64,
) -> WritePathView {
    let b = w.batches;
    match (msg_type, encode) {
        (MsgType::ClientOp, true) => WritePathView {
            batches: BatchCounters {
                client_envelope_encode_bytes: counted(b.client_envelope_encode_bytes, bytes),
                ..b
            },
            ..after_stage(w, WriteStage::ClientEnvelopeEncode, nanos)
        },
        (MsgType::ClientOp, false) => WritePathView {
            batches: BatchCounters {
                client_envelope_decode_bytes: counted(b.client_envelope_decode_bytes, bytes),
                ..b
            },
            ..after_stage(w, WriteStage::ClientEnvelopeDecode, nanos)
        },
        (MsgType::RaftAppend, true) => WritePathView {
            batches: BatchCounters {
                raft_envelope_encode_bytes: counted(b.raft_envelope_encode_bytes, bytes),
                ..b
            },
            ..after_stage(w, WriteStage::RaftEnvelopeEncode, nanos)
        },
        (MsgType::RaftAppend, false) => WritePathView {
            batches: BatchCounters {
                raft_envelope_decode_bytes: counted(b.raft_envelope_decode_bytes, bytes),
                ..b
            },
            ..after_stage(w, WriteStage::RaftEnvelopeDecode, nanos)
        },
        _ => w,
    }
}

impl WritePath {
    /// Whether there is a counter per stage.
    pub closed spec fn valid(&self) -> bool {
        self.stages@.len() == STAGES
    }

    pub fn new(enabled: bool) -> (w: WritePath)
        ensures
            w.valid(),
            w@ == idle(enabled),
    {
        let mut stages: Vec<StageCounters> = Vec::new();
        let mut i: usize = 0;
        while i < STAGES
            invariant
                i <= STAGES,
                stages@.len() == i,
                forall|k: int| 0 <= k < i ==> #[trigger] stages@[k] == idle_stage(),
            decreases STAGES - i,
        {
            stages.push(StageCounters { calls: 0, total_ns: 0, max_ns: 0 });
            i += 1;
        }
        let w = WritePath { enabled, stages, batches: no_batches() };
        assert(w@ =~= idle(enabled));
        w
    }

    /// Forget everything recorded.
    pub fn reset_write_path(&mut self)
        ensures
            final(self).valid(),
            final(self)@ == idle(old(self)@.enabled),
    {
        let fresh = WritePath::new(self.enabled);
        self.stages = fresh.stages;
        self.batches = fresh.batches;
        assert(self@ =~= idle(old(self)@.enabled));
    }

    /// Record that a stage took so many nanoseconds.
    pub fn record_duration(&mut self, stage: WriteStage, nanos: u64)
        requires
            old(self).valid(),
        ensures
            final(self).valid(),
            final(self)@ == after_stage(old(self)@, stage, nanos),
    {
        let i: usize = stage.index();
        let c: StageCounters = self.stages[i];
        self.stages.set(
            i,
            StageCounters {
                calls: count(c.calls, 1),
                total_ns: count(c.total_ns, nanos),
                max_ns: larger(c.max_ns, nanos),
            },
        );
        assert(self@ =~= after_stage(old(self)@, stage, nanos));
    }

    /// End a measurement and record it, if it was started.
    pub fn stop(&mut self, timer: StageTimer, now: u128)
        requires
            old(self).valid(),
        ensures
            final(self).valid(),
            final(self)@ == match timer.started {
                Some(started) => after_stage(
                    old(self)@,
                    timer.stage,
                    nanos_between(started, now),
                ),
                None => old(self)@,
            },
    {
        if let Some(started) = timer.started {
            let gap: u128 = now.saturating_sub(started);
            let nanos: u64 = if gap > u64::MAX as u128 {
                u64::MAX
            } else {
                gap as u64
            };
            self.record_duration(timer.stage, nanos);
        }
    }

    /// Record an envelope of a profiled message.
    pub fn record_envelope(&mut self, msg_type: MsgType, encode: bool, nanos: u64, bytes: u64)
        requires
            old(self).valid(),
        ensures
            final(self).valid(),
            final(self)@ == after_envelope(old(self)@, msg_type, encode, nanos, bytes),
    {
        match (msg_type, encode) {
            (MsgType::ClientOp, true) => {
                self.record_duration(WriteStage::ClientEnvelopeEncode, nanos);
                self.batches.client_envelope_encode_bytes = count(
                    self.batches.client_envelope_encode_bytes,
                    bytes,
                );
            },
            (MsgType::ClientOp, false) => {
                self.record_duration(WriteStage::ClientEnvelopeDecode, nanos);
                self.batches.client_envelope_decode_bytes = count(
                    self.batches.client_envelope_decode_bytes,
                    bytes,
                );
            },
            (MsgType::RaftAppend, true) => {
                self.record_duration(WriteStage::RaftEnvelopeEncode, nanos);
                self.batches.raft_envelope_encode_bytes = count(
                    self.batches.raft_envelope_encode_bytes,
                    bytes,
                );
            },
            (MsgType::RaftAppend, false) => {
                self.record_duration(WriteStage::RaftEnvelopeDecode, nanos);
                self.batches.raft_envelope_decode_bytes = count(
                    self.batches.raft_envelope_decode_bytes,
                    bytes,
                );
            },
            _ => {},
        }
        assert(self@ =~= after_envelope(old(self)@, msg_type, encode, nanos, bytes));
    }

    /// Record a durable batch of writes.
    pub fn record_durability_batch(&mut self, log_writes: u64, state_writes: u64, logical_bytes: u64)
        requires
            old(self).valid(),
        ensures
            final(self).valid(),
            final(self)@ == if old(self)@.enabled {
                WritePathView {
                    batches: BatchCounters {
                        durability_log_writes: counted(
                            old(self)@.batches.durability_log_writes,
                            log_writes,
                        ),
                        durability_state_writes: counted(
                            old(self)@.batches.durability_state_writes,
                            state_writes,
                        ),
                        durability_logical_bytes: counted(
                            old(self)@.batches.durability_logical_bytes,
                            logical_bytes,
                        ),
                        durability_max_batch: greater(
                            old(self)@.batches.durability_max_batch,
                            capped(log_writes, state_writes),
                        ),
                        ..old(self)@.batches
                    },
                    ..old(self)@
                }
            } else {
                old(self)@
            },
    {
        if !self.enabled {
            return;
        }
        let b: BatchCounters = self.batches;
        self.batches = BatchCounters {
            durability_log_writes: count(b.durability_log_writes, log_writes),
            durability_state_writes: count(b.durability_state_writes, state_writes),
            durability_logical_bytes: count(b.durability_logical_bytes, logical_bytes),
            durability_max_batch: larger(
                b.durability_max_batch,
                log_writes.saturating_add(state_writes),
            ),
            ..b
        };
    }

    /// Record that a committed position was folded into an apply batch.
    pub fn record_committed_marker_folded(&mut self)
        requires
            old(self).valid(),
        ensures
            final(self).valid(),
            final(self)@ == if old(self)@.enabled {
                WritePathView {
                    batches: BatchCounters {
                        committed_markers_folded: counted(
                            old(self)@.batches.committed_markers_folded,
                            1,
                        ),
                        ..old(self)@.batches
                    },
                    ..old(self)@
                }
            } else {
                old(self)@
            },
    {
        if self.enabled {
            self.batches.committed_markers_folded = count(self.batches.committed_markers_folded, 1);
        }
    }

    /// Record an apply batch.
    pub fn record_apply_batch(&mut self, entries: u64, mutations: u64, logical_bytes: u64)
        requires
            old(self).valid(),
        ensures
            final(self).valid(),
            final(self)@ == if old(self)@.enabled {
                WritePathView {
                    batches: BatchCounters {
                        apply_batches: counted(old(self)@.batches.apply_batches, 1),
                        apply_entries: counted(old(self)@.batches.apply_entries, entries),
                        apply_mutations: counted(old(self)@.batches.apply_mutations, mutations),
                        apply_logical_bytes: counted(
                            old(self)@.batches.apply_logical_bytes,
                            logical_bytes,
                        ),
                        apply_max_entries: greater(
                            old(self)@.batches.apply_max_entries,
                            entries,
                        ),
                        ..old(self)@.batches
                    },
                    ..old(self)@
                }
            } else {
                old(self)@
            },
    {
        if !self.enabled {
            return;
        }
        let b: BatchCounters = self.batches;
        self.batches = BatchCounters {
            apply_batches: count(b.apply_batches, 1),
            apply_entries: count(b.apply_entries, entries),
            apply_mutations: count(b.apply_mutations, mutations),
            apply_logical_bytes: count(b.apply_logical_bytes, logical_bytes),
            apply_max_entries: larger(b.apply_max_entries, entries),
            ..b
        };
    }

    /// The figures of a report; none where profiling is off.
    pub fn write_path_report(&self) -> (r: Option<WritePathReport>)
        requires
            self.valid(),
        ensures
            match r {
                Some(report) => figures(self@) == Some(report@),
                None => figures(self@) is None,
            },
    {
        if !self.enabled {
            return None;
        }
        let mut stages: Vec<StageFigures> = Vec::new();
        let mut i: usize = 0;
        while i < STAGES
            invariant
                i <= STAGES,
                self.stages@.len() == STAGES,
                stages@ == called_stages(self.stages@, i as int),
            decreases STAGES - i,
        {
            let counters: StageCounters = self.stages[i];
            if counters.calls != 0 {
                stages.push(StageFigures { stage: WriteStage::from_index(i), counters });
            }
            i += 1;
        }
        let b: BatchCounters = self.batches;
        let flushes: u64 = self.stages[WriteStage::WalFlush.index()].calls;
        let durability = if flushes > 0 {
            Some(
                DurabilityFigures {
                    flushes,
                    log_writes: b.durability_log_writes,
                    state_writes: b.durability_state_writes,
                    writes: b.durability_log_writes.saturating_add(b.durability_state_writes),
                    max_batch: b.durability_max_batch,
                    logical_bytes: b.durability_logical_bytes,
                },
            )
        } else {
            None
        };
        let apply = if b.apply_batches > 0 {
            Some(
                ApplyFigures {
                    batches: b.apply_batches,
                    entries: b.apply_entries,
                    max_entries: b.apply_max_entries,
                    mutations: b.apply_mutations,
                    logical_bytes: b.apply_logical_bytes,
                    committed_markers_folded: b.committed_markers_folded,
                },
            )
        } else {
            None
        };
        let envelopes = if b.client_envelope_encode_bytes > 0 || b.client_envelope_decode_bytes > 0
            || b.raft_envelope_encode_bytes > 0 || b.raft_envelope_decode_bytes > 0 {
            Some(
                EnvelopeFigures {
                    client_encoded: b.client_envelope_encode_bytes,
                    client_decoded: b.client_envelope_decode_bytes,
                    raft_encoded: b.raft_envelope_encode_bytes,
                    raft_decoded: b.raft_envelope_decode_bytes,
                },
            )
        } else {
            None
        };
        Some(WritePathReport { stages, durability, apply, envelopes })
    }
}

/// Counters of the storage engine.
#[derive(Debug, Clone, Copy, PartialEq, Eq, Structural)]
pub struct RocksCounters {
    pub wal_syncs: u64,
    pub wal_bytes: u64,
    pub stall_micros: u64,
}

/// The difference that does not go below zero.
pub open spec fn floored(a: u64, b: u64) -> u64 {
    if a < b {
        0
    } else {
        (a - b) as u64
    }
}

impl RocksCounters {
    /// What was counted since an earlier reading.
    pub fn saturating_sub(self, earlier: RocksCounters) -> (d: RocksCounters)
        ensures
            d.wal_syncs == floored(self.wal_syncs, earlier.wal_syncs),
            d.wal_bytes == floored(self.wal_bytes, earlier.wal_bytes),
            d.stall_micros == floored(self.stall_micros, earlier.stall_micros),
    {
        RocksCounters {
            wal_syncs: self.wal_syncs.saturating_sub(earlier.wal_syncs),
            wal_bytes: self.wal_bytes.saturating_sub(earlier.wal_bytes),
            stall_micros: self.stall_micros.saturating_sub(earlier.stall_micros),
        }
    }

    /// The counters of two engines together.
    pub fn plus(self, other: RocksCounters) -> (s: RocksCounters)
        ensures
            s.wal_syncs == capped(self.wal_syncs, other.wal_syncs),
            s.wal_bytes == capped(self.wal_bytes, other.wal_bytes),
            s.stall_micros == capped(self.stall_micros, other.stall_micros),
    {
        RocksCounters {
            wal_syncs: self.wal_syncs.saturating_add(other.wal_syncs),
            wal_bytes: self.wal_bytes.saturating_add(other.wal_bytes),
            stall_micros: self.stall_micros.saturating_add(other.stall_micros),
        }
    }
}

impl Default for RocksCounters {
    fn default() -> (c: RocksCounters)
        ensures
            c == (RocksCounters { wal_syncs: 0, wal_bytes: 0, stall_micros: 0 }),
    {
        RocksCounters { wal_syncs: 0, wal_bytes: 0, stall_micros: 0 }
    }
}

/// What was counted since an earlier reading, on top of it, is the later one.
pub proof fn law_counter_difference(earlier: u64, later: u64)
    requires
        earlier <= later,
    ensures
        capped(earlier, floored(later, earlier)) == later,
{
}

proof fn lemma_nothing_called(stages: Seq<StageCounters>, n: int)
    requires
        forall|i: int| 0 <= i < n ==> (#[trigger] stages[i]).calls == 0,
    ensures
        called_stages(stages, n) == Seq::<StageFigures>::empty(),
    decreases n,
{
    if n > 0 {
        lemma_nothing_called(stages, n - 1);
    }
}

/// After a reset a report shows no figures at all.
pub proof fn law_reset_reports_nothing()
    ensures
        figures(idle(true)) == Some(
            ReportView {
                stages: Seq::<StageFigures>::empty(),
                durability: None,
                apply: None,
                envelopes: None,
            },
        ),
        figures(idle(false)) is None,
{
    lemma_nothing_called(idle(true).stages, STAGES as int);
}

/// Recording a duration counts one call of its stage, adds to that stage's time and
/// raises its longest where it was longer; counters wrap at their greatest number. No
/// other stage changes.
pub proof fn law_durations_are_recorded(
    w: WritePathView,
    stage: WriteStage,
    nanos: u64,
    other: WriteStage,
)
    requires
        w.stages.len() == STAGES,
    ensures
        ({
            let before = w.stages[stage.spec_index()];
            let v = after_stage(w, stage, nanos);
            let after = v.stages[stage.spec_index()];
            &&& before.calls < u64::MAX ==> after.calls == before.calls + 1
            &&& before.calls == u64::MAX ==> after.calls == 0
            &&& before.total_ns + nanos <= u64::MAX ==> after.total_ns == before.total_ns + nanos
            &&& after.max_ns >= before.max_ns && after.max_ns >= nanos && (after.max_ns
                == before.max_ns || after.max_ns == nanos)
            &&& other != stage ==> v.stages[other.spec_index()] == w.stages[other.spec_index()]
            &&& v.enabled == w.enabled && v.batches == w.batches && v.stages.len()
                == w.stages.len()
        }),
{
    law_stages_have_places(stage, other);
}

/// A report holds exactly the stages that were called, with their counters; nothing is
/// reported where the profile is off.
pub proof fn law_reports_hold_called_stages(w: WritePathView, stage: WriteStage)
    requires
        w.stages.len() == STAGES,
    ensures
        figures(w) is Some <==> w.enabled,
        figures(w) matches Some(r) ==> (r.stages.contains(
            StageFigures { stage, counters: w.stages[stage.spec_index()] },
        ) <==> w.stages[stage.spec_index()].calls > 0),
        figures(w) matches Some(r) ==> (r.durability is Some
            <==> w.stages[WriteStage::WalFlush.spec_index()].calls > 0),
        figures(w) matches Some(r) ==> (r.apply is Some <==> w.batches.apply_batches > 0),
        figures(w) matches Some(r) ==> (r.envelopes is Some
            <==> w.batches.client_envelope_encode_bytes > 0
            || w.batches.client_envelope_decode_bytes > 0 || w.batches.raft_envelope_encode_bytes
            > 0 || w.batches.raft_envelope_decode_bytes > 0),
{
    law_stages_have_places(stage, stage);
    lemma_called(w.stages, STAGES as int, stage);
}

proof fn lemma_called(stages: Seq<StageCounters>, n: int, stage: WriteStage)
    requires
        0 <= n <= STAGES,
        stages.len() == STAGES,
    ensures
        called_stages(stages, n).contains(
            StageFigures { stage, counters: stages[stage.spec_index()] },
        ) <==> stage.spec_index() < n && stages[stage.spec_index()].calls > 0,
    decreases n,
{
    let want = StageFigures { stage, counters: stages[stage.spec_index()] };
    if n > 0 {
        lemma_called(stages, n - 1, stage);
        let head = called_stages(stages, n - 1);
        let all = called_stages(stages, n);
        lemma_stage_at(n - 1);
        let here = WriteStage::at(n - 1);
        assert(here.spec_index() == n - 1);
        law_stages_have_places(here, stage);
        if head.contains(want) {
            let k = head.index_of(want);
            assert(all[k] == want);
        }
        if all.contains(want) && !head.contains(want) {
            let k = all.index_of(want);
            if k < head.len() {
                assert(head[k] == want);
            }
        }
        if stage.spec_index() == n - 1 && stages[n - 1].calls > 0 {
            assert(all[head.len() as int] == want);
        }
    }
}

/// Every place has a stage.
proof fn lemma_stage_at(i: int)
    requires
        0 <= i < STAGES,
    ensures
        WriteStage::at(i).spec_index() == i,
{
    let s = if i == 0 {
        WriteStage::ClientTransportCall
    } else if i == 1 {
        WriteStage::ClientGatewayHandle
    } else if i == 2 {
        WriteStage::RaftClientWrite
    } else if i == 3 {
        WriteStage::RaftAppendTransportCall
    } else if i == 4 {
        WriteStage::RaftAppendHandle
    } else if i == 5 {
        WriteStage::ClientReplyQueueWait
    } else if i == 6 {
        WriteStage::RaftReplyQueueWait
    } else if i == 7 {
        WriteStage::ClientDealerQueueWait
    } else if i == 8 {
        WriteStage::RaftDealerQueueWait
    } else if i == 9 {
        WriteStage::ClientDealerRoundTrip
    } else if i == 10 {
        WriteStage::RaftDealerRoundTrip
    } else if i == 11 {
        WriteStage::ClientDealerWaiterResume
    } else if i == 12 {
        WriteStage::RaftDealerWaiterResume
    } else if i == 13 {
        WriteStage::ClientRouterSchedule
    } else if i == 14 {
        WriteStage::RaftRouterSchedule
    } else if i == 15 {
        WriteStage::ClientRouterHandler
    } else if i == 16 {
        WriteStage::RaftRouterHandler
    } else if i == 17 {
        WriteStage::ClientReplyEnqueue
    } else if i == 18 {
        WriteStage::RaftReplyEnqueue
    } else if i == 19 {
        WriteStage::ClientRouterSend
    } else if i == 20 {
        WriteStage::RaftRouterSend
    } else if i == 21 {
        WriteStage::ClientEnvelopeEncode
    } else if i == 22 {
        WriteStage::ClientEnvelopeDecode
    } else if i == 23 {
        WriteStage::RaftEnvelopeEncode
    } else if i == 24 {
        WriteStage::RaftEnvelopeDecode
    } else if i == 25 {
        WriteStage::LogEncode
    } else if i == 26 {
        WriteStage::WalCapacityWait
    } else if i == 27 {
        WriteStage::WalAppendLockWait
    } else if i == 28 {
        WriteStage::WalWriteUnsynced
    } else if i == 29 {
        WriteStage::WalDurabilityWait
    } else if i == 30 {
        WriteStage::WalBatchCollect
    } else if i == 31 {
        WriteStage::WalFlush
    } else if i == 32 {
        WriteStage::LogWriteSynced
    } else if i == 33 {
        WriteStage::SaveVoteSynced
    } else if i == 34 {
        WriteStage::SaveCommittedWal
    } else if i == 35 {
        WriteStage::SaveCommittedSynced
    } else if i == 36 {
        WriteStage::StateApplyTotal
    } else if i == 37 {
        WriteStage::StateApplyCapacityWait
    } else if i == 38 {
        WriteStage::StateApplyWalWrite
    } else if i == 39 {
        WriteStage::StateApplyDurabilityWait
    } else {
        WriteStage::StateApplySynced
    };
    assert(s.spec_index() == i);
}

/// Clock differences never run backwards, and stop at the greatest number; sums stop
/// there too, and differences at zero.
pub proof fn law_figures_are_bounded(started: u128, now: u128, a: u64, b: u64)
    ensures
        now <= started ==> nanos_between(started, now) == 0,
        started <= now <= started + u64::MAX ==> nanos_between(started, now) == now - started,
        now > started + u64::MAX ==> nanos_between(started, now) == u64::MAX,
        capped(a, b) == if a + b <= u64::MAX {
            a + b
        } else {
            u64::MAX as int
        },
        floored(a, b) == if b <= a {
            a - b
        } else {
            0
        },
        greater(a, b) >= a && greater(a, b) >= b && (greater(a, b) == a || greater(a, b) == b),
{
}

/// Encoding or decoding a client or an append frame is timed as its own stage, and its
/// bytes are counted on its own; other frames count for nothing.
pub proof fn law_envelopes_are_recorded(
    w: WritePathView,
    msg_type: MsgType,
    encode: bool,
    nanos: u64,
    bytes: u64,
)
    requires
        w.stages.len() == STAGES,
    ensures
        ({
            let v = after_envelope(w, msg_type, encode, nanos, bytes);
            let b = w.batches;
            let c = v.batches;
            &&& msg_type != MsgType::ClientOp && msg_type != MsgType::RaftAppend ==> v == w
            &&& msg_type == MsgType::ClientOp && encode ==> v.stages == after_stage(
                w,
                WriteStage::ClientEnvelopeEncode,
                nanos,
            ).stages && c == (BatchCounters {
                client_envelope_encode_bytes: c.client_envelope_encode_bytes,
                ..b
            }) && (b.client_envelope_encode_bytes + bytes <= u64::MAX
                ==> c.client_envelope_encode_bytes == b.client_envelope_encode_bytes + bytes)
            &&& msg_type == MsgType::ClientOp && !encode ==> v.stages == after_stage(
                w,
                WriteStage::ClientEnvelopeDecode,
                nanos,
            ).stages && c == (BatchCounters {
                client_envelope_decode_bytes: c.client_envelope_decode_bytes,
                ..b
            }) && (b.client_envelope_decode_bytes + bytes <= u64::MAX
                ==> c.client_envelope_decode_bytes == b.client_envelope_decode_bytes + bytes)
            &&& msg_type == MsgType::RaftAppend && encode ==> v.stages == after_stage(
                w,
                WriteStage::RaftEnvelopeEncode,
                nanos,
            ).stages && c == (BatchCounters {
                raft_envelope_encode_bytes: c.raft_envelope_encode_bytes,
                ..b
            }) && (b.raft_envelope_encode_bytes + bytes <= u64::MAX ==> c.raft_envelope_encode_bytes
                == b.raft_envelope_encode_bytes + bytes)
            &&& msg_type == MsgType::RaftAppend && !encode ==> v.stages == after_stage(
                w,
                WriteStage::RaftEnvelopeDecode,
                nanos,
            ).stages && c == (BatchCounters {
                raft_envelope_decode_bytes: c.raft_envelope_decode_bytes,
                ..b
            }) && (b.raft_envelope_decode_bytes + bytes <= u64::MAX ==> c.raft_envelope_decode_bytes
                == b.raft_envelope_decode_bytes + bytes)
            &&& v.enabled == w.enabled
        }),
{
}

} // verus!
