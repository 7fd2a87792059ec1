//! Finding the replica that leads the meta group, among several in one process.
use crate::error::{Error, ErrorView};
use crate::meta::node::{MetaRead, ProposeOutcome};
use crate::meta::state_machine::MetaApplyResult;
use crate::types::NodeId;
use vstd::prelude::*;

verus! {

/// How many times a call looks for a leader.
pub const MAX_ASKS: usize = 200;

/// How long a call waits before it looks again, in milliseconds.
pub const ASK_PAUSE_MILLIS: u64 = 50;

/// How long a wait for a configuration pauses, in milliseconds.
pub const CONFIG_PAUSE_MILLIS: u64 = 25;

/// The first replica that believes to lead, if any does.
pub open spec fn self_led(replicas: Seq<(NodeId, Option<NodeId>)>) -> Option<int>
    decreases replicas.len(),
{
    if replicas.len() == 0 {
        None
    } else {
        match self_led(replicas.drop_last()) {
            Some(i) => Some(i),
            None => if replicas.last().1 == Some(replicas.last().0) {
                Some(replicas.len() - 1)
            } else {
                None
            },
        }
    }
}

/// The replica to propose to: the first that believes to lead, given each
/// replica's node and the leader it knows.
pub fn leading_replica(replicas: &Vec<(NodeId, Option<NodeId>)>) -> (r: Option<usize>)
    ensures
        match r {
            Some(i) => self_led(replicas@) == Some(i as int) && i < replicas@.len(),
            None => self_led(replicas@) is None,
        },
{
    let mut i: usize = 0;
    assert(replicas@.take(0) =~= Seq::<(NodeId, Option<NodeId>)>::empty());
    while i < replicas.len()
        invariant
            i <= replicas@.len(),
            self_led(replicas@.take(i as int)) is None,
        decreases replicas@.len() - i,
    {
        proof {
            assert(replicas@.take(i + 1).drop_last() =~= replicas@.take(i as int));
            assert(replicas@.take(i + 1).last() == replicas@[i as int]);
        }
        let leads: bool = match replicas[i].1 {
            Some(leader) => leader == replicas[i].0,
            None => false,
        };
        if leads {
            proof {
                lemma_self_led_extends(replicas@, i + 1, i as int);
            }
            return Some(i);
        }
        i += 1;
    }
    assert(replicas@.take(i as int) =~= replicas@);
    None
}

proof fn lemma_self_led_extends(replicas: Seq<(NodeId, Option<NodeId>)>, n: int, i: int)
    requires
        0 <= n <= replicas.len(),
        self_led(replicas.take(n)) == Some(i),
    ensures
        self_led(replicas) == Some(i),
    decreases replicas.len() - n,
{
    if n == replicas.len() {
        assert(replicas.take(n) =~= replicas);
    } else {
        assert(replicas.take(n + 1).drop_last() =~= replicas.take(n));
        lemma_self_led_extends(replicas, n + 1, i);
    }
}

/// What a bounded wait is for.
#[derive(Debug, Clone, Copy, PartialEq, Eq, Structural)]
pub enum Awaited {
    /// A leader that takes a bootstrap command.
    Bootstrap,
    /// A leader that takes a command.
    Command,
    /// A leader that reads a directory entry.
    Node,
    /// A leader that reads a placement.
    Placement,
    /// A committed configuration.
    Configuration,
}

impl Awaited {
    /// What is said when the wait is over.
    pub open spec fn spec_text(self) -> Seq<char> {
        match self {
            Awaited::Bootstrap => "no meta leader accepted a bootstrap command"@,
            Awaited::Command => "no meta leader accepted the command"@,
            Awaited::Node => "no meta leader for node read"@,
            Awaited::Placement => "no meta leader for placement read"@,
            Awaited::Configuration => "timed out waiting for committed config"@,
        }
    }

    /// The error when the wait is over.
    pub fn given_up(self) -> (e: Error)
        ensures
            e@ == ErrorView::Raft(self.spec_text()),
    {
        let text: &str = match self {
            Awaited::Bootstrap => "no meta leader accepted a bootstrap command",
            Awaited::Command => "no meta leader accepted the command",
            Awaited::Node => "no meta leader for node read",
            Awaited::Placement => "no meta leader for placement read",
            Awaited::Configuration => "timed out waiting for committed config",
        };
        Error::Raft(text.to_owned())
    }
}

/// A bounded wait.
pub struct LeaderWait {
    asked: usize,
}

/// What a call does next.
#[derive(Debug, Clone, Copy, PartialEq, Eq, Structural)]
pub enum LeaderStep {
    /// Ask the replica at this place of the list.
    Ask(usize),
    /// Nobody leads: look again after a pause.
    Pause,
    /// The wait is over.
    GiveUp,
}

impl View for LeaderWait {
    type V = nat;

    /// How many attempts were made.
    closed spec fn view(&self) -> nat {
        self.asked as nat
    }
}

impl LeaderWait {
    pub fn begin() -> (w: LeaderWait)
        ensures
            w@ == 0,
    {
        LeaderWait { asked: 0 }
    }

    /// Make another attempt, if there is one left.
    pub fn again(&mut self) -> (more: bool)
        ensures
            more == (old(self)@ < MAX_ASKS),
            final(self)@ == if more {
                old(self)@ + 1
            } else {
                old(self)@
            },
    {
        if self.asked < MAX_ASKS {
            self.asked = self.asked + 1;
            true
        } else {
            false
        }
    }

    /// What to do next, given each replica's node and the leader that it knows.
    pub fn step(&mut self, replicas: &Vec<(NodeId, Option<NodeId>)>) -> (step: LeaderStep)
        ensures
            step is GiveUp <==> old(self)@ >= MAX_ASKS,
            final(self)@ == if step is GiveUp {
                old(self)@
            } else {
                old(self)@ + 1
            },
            step matches LeaderStep::Ask(i) ==> self_led(replicas@) == Some(i as int) && i
                < replicas@.len(),
            step is Pause ==> self_led(replicas@) is None,
    {
        if !self.again() {
            return LeaderStep::GiveUp;
        }
        match leading_replica(replicas) {
            Some(i) => LeaderStep::Ask(i),
            None => LeaderStep::Pause,
        }
    }
}

/// The result of a proposal, or nothing where the replica turned out not to lead.
pub fn proposed(outcome: Result<ProposeOutcome, Error>) -> (r: Option<Result<MetaApplyResult, Error>>)
    ensures
        r == match outcome {
            Ok(ProposeOutcome::Applied(result)) => Some(Ok::<MetaApplyResult, Error>(result)),
            Ok(ProposeOutcome::NotLeader { .. }) => None,
            Err(e) => Some(Err(e)),
        },
{
    match outcome {
        Ok(ProposeOutcome::Applied(result)) => Some(Ok(result)),
        Ok(ProposeOutcome::NotLeader { .. }) => None,
        Err(e) => Some(Err(e)),
    }
}

/// The value of a read, or nothing where the replica turned out not to lead.
pub fn read_value<T>(outcome: Result<MetaRead<T>, Error>) -> (r: Option<Result<T, Error>>)
    ensures
        r == match outcome {
            Ok(MetaRead::Value(value)) => Some(Ok::<T, Error>(value)),
            Ok(MetaRead::NotLeader { .. }) => None,
            Err(e) => Some(Err(e)),
        },
{
    match outcome {
        Ok(MetaRead::Value(value)) => Some(Ok(value)),
        Ok(MetaRead::NotLeader { .. }) => None,
        Err(e) => Some(Err(e)),
    }
}

/// The replica to ask is the first one that believes it leads; there is none only
/// where no replica does.
pub proof fn law_first_leading_replica(replicas: Seq<(NodeId, Option<NodeId>)>)
    ensures
        match self_led(replicas) {
            Some(i) => {
                &&& 0 <= i < replicas.len()
                &&& replicas[i].1 == Some(replicas[i].0)
                &&& forall|j: int|
                    0 <= j < i ==> (#[trigger] replicas[j]).1 != Some(replicas[j].0)
            },
            None => forall|j: int|
                0 <= j < replicas.len() ==> (#[trigger] replicas[j]).1 != Some(replicas[j].0),
        },
    decreases replicas.len(),
{
    if replicas.len() > 0 {
        let init = replicas.drop_last();
        law_first_leading_replica(init);
        assert forall|j: int| 0 <= j < init.len() implies #[trigger] replicas[j] == init[j] by {}
    }
}

} // verus!
