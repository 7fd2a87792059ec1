//! The meta group's serving gate: what a proposal or a read gives, and what a
//! removal of a learner needs. `serving` holds why the group may not be served, if
//! it may not.
use crate::error::{behind, error_view, gives, Error, ErrorView};
use crate::keyspace::starts_with;
use crate::meta::state_machine::MetaApplyResult;
use crate::partition::node::LeaderCheck;
use crate::partition::table::{copy_bytes, pair_views};
use crate::sets::holds;
use crate::text::{decimal, prefixed, to_decimal};
use crate::types::{MetaCommand, NodeId};
use vstd::prelude::*;

verus! {

/// The outcome of a proposal to the meta group.
#[derive(Debug, Clone, PartialEq, Eq)]
pub enum ProposeOutcome {
    Applied(MetaApplyResult),
    NotLeader { leader: Option<NodeId> },
}

/// The outcome of a linearizable read of the meta group.
#[derive(Debug, Clone, PartialEq, Eq)]
pub enum MetaRead<T> {
    Value(T),
    NotLeader { leader: Option<NodeId> },
}

/// What submitting a meta command reports.
pub enum ProposeReport {
    Committed(MetaApplyResult),
    Forward(Option<NodeId>),
    Failed(String),
}

/// Begin a proposal: hand out the command to submit, if the group may be served.
pub fn begin_propose(serving: Option<&Error>, command: MetaCommand) -> (r: Result<
    MetaCommand,
    Error,
>)
    ensures
        gives(r, behind(error_view(serving), Ok(command))),
{
    match serving {
        Some(e) => Err(e.duplicate()),
        None => Ok(command),
    }
}

/// The outcome that a submitted command's report means.
pub fn propose(report: ProposeReport) -> (r: Result<ProposeOutcome, Error>)
    ensures
        match report {
            ProposeReport::Committed(result) => r == Ok::<ProposeOutcome, Error>(
                ProposeOutcome::Applied(result),
            ),
            ProposeReport::Forward(leader) => r == Ok::<ProposeOutcome, Error>(
                ProposeOutcome::NotLeader { leader },
            ),
            ProposeReport::Failed(text) => r matches Err(e) && e@ == ErrorView::Raft(text@),
        },
        r is Err <==> report is Failed,
        (r matches Ok(ProposeOutcome::Applied(_))) <==> report is Committed,
        (r matches Ok(ProposeOutcome::NotLeader { .. })) <==> report is Forward,
{
    match report {
        ProposeReport::Committed(result) => Ok(ProposeOutcome::Applied(result)),
        ProposeReport::Forward(leader) => Ok(ProposeOutcome::NotLeader { leader }),
        ProposeReport::Failed(text) => Err(Error::Raft(text)),
    }
}

/// What a linearizable read gives behind the serving gate.
pub open spec fn read_answer<T>(
    serving: Option<ErrorView>,
    check: LeaderCheck,
    value: Result<T, ErrorView>,
) -> Result<MetaRead<T>, ErrorView> {
    behind(
        serving,
        match check {
            LeaderCheck::Confirmed(_) => match value {
                Ok(v) => Ok(MetaRead::Value(v)),
                Err(e) => Err(e),
            },
            LeaderCheck::Forward(leader) => Ok(MetaRead::NotLeader { leader }),
            LeaderCheck::Failed(text) => Err(ErrorView::Raft(text@)),
        },
    )
}

/// A value read after leadership was confirmed, or where to ask instead, if the
/// group may be served. A value read without a confirmation is dropped.
pub fn linearizable<T>(serving: Option<&Error>, check: LeaderCheck, value: Result<T, Error>) -> (r:
    Result<MetaRead<T>, Error>)
    ensures
        gives(
            r,
            read_answer(
                error_view(serving),
                check,
                match value {
                    Ok(v) => Ok(v),
                    Err(e) => Err(e@),
                },
            ),
        ),
{
    if let Some(e) = serving {
        return Err(e.duplicate());
    }
    match check {
        LeaderCheck::Confirmed(_) => match value {
            Ok(v) => Ok(MetaRead::Value(v)),
            Err(e) => Err(e),
        },
        LeaderCheck::Forward(leader) => Ok(MetaRead::NotLeader { leader }),
        LeaderCheck::Failed(text) => Err(Error::Raft(text)),
    }
}

/// Where the serving gate is closed, the meta group takes no proposal and reads
/// nothing.
pub proof fn law_closed_meta_gate_answers_nothing<T>(
    e: ErrorView,
    command: MetaCommand,
    check: LeaderCheck,
    value: Result<T, ErrorView>,
)
    ensures
        behind(Some(e), Ok(command)) == Err::<MetaCommand, ErrorView>(e),
        read_answer(Some(e), check, value) == Err::<MetaRead<T>, ErrorView>(e),
{
}

/// Whether a learner must be removed: nothing is proposed for a node that is no
/// member, so a retried abort does not grow the log, and a voter is refused.
pub fn remove_learner(learners: &Vec<NodeId>, voters: &Vec<NodeId>, id: NodeId) -> (r: Result<
    bool,
    Error,
>)
    ensures
        match r {
            Ok(remove) => remove == learners@.contains(id) && (remove || !voters@.contains(id)),
            Err(e) => !learners@.contains(id) && voters@.contains(id) && e@ == ErrorView::Raft(
                "remove_learner: node "@ + decimal(id as nat) + " is still a voter"@,
            ),
        },
{
    if holds(learners, id) {
        return Ok(true);
    }
    if holds(voters, id) {
        let mut s = prefixed("remove_learner: node ", to_decimal(id as u128).as_str());
        s.append(" is still a voter");
        return Err(Error::Raft(s));
    }
    Ok(false)
}

/// The values of the rows whose keys begin with a prefix, in order.
pub open spec fn values_under(rows: Seq<(Seq<u8>, Seq<u8>)>, prefix: Seq<u8>) -> Seq<Seq<u8>>
    decreases rows.len(),
{
    if rows.len() == 0 {
        Seq::empty()
    } else if prefix.is_prefix_of(rows.last().0) {
        values_under(rows.drop_last(), prefix).push(rows.last().1)
    } else {
        values_under(rows.drop_last(), prefix)
    }
}

/// The stored values of one kind of meta record, by its key prefix.
pub fn scan_prefix(rows: &Vec<(Vec<u8>, Vec<u8>)>, prefix: &[u8]) -> (out: Vec<Vec<u8>>)
    ensures
        out@.map_values(|v: Vec<u8>| v@) == values_under(pair_views(rows@), prefix@),
{
    let mut out: Vec<Vec<u8>> = Vec::new();
    let mut i: usize = 0;
    let ghost views = pair_views(rows@);
    proof {
        assert(views.take(0) =~= Seq::<(Seq<u8>, Seq<u8>)>::empty());
        assert(out@.map_values(|v: Vec<u8>| v@) =~= Seq::<Seq<u8>>::empty());
    }
    while i < rows.len()
        invariant
            i <= rows@.len(),
            views == pair_views(rows@),
            out@.map_values(|v: Vec<u8>| v@) == values_under(views.take(i as int), prefix@),
        decreases rows@.len() - i,
    {
        proof {
            assert(views.take(i + 1).drop_last() =~= views.take(i as int));
            assert(views.take(i + 1).last() == views[i as int]);
        }
        if starts_with(&rows[i].0, prefix) {
            let value = copy_bytes(&rows[i].1);
            let ghost before = out@;
            out.push(value);
            assert(out@.map_values(|v: Vec<u8>| v@) =~= before.map_values(|v: Vec<u8>| v@).push(
                value@,
            ));
        }
        i += 1;
    }
    assert(views.take(i as int) =~= views);
    out
}

/// A scan gives back, in their order, the values of exactly the rows whose key
/// begins with the prefix.
pub proof fn law_scans_select_by_prefix(rows: Seq<(Seq<u8>, Seq<u8>)>, prefix: Seq<u8>)
    ensures
        values_under(rows, prefix) == rows.filter(
            |r: (Seq<u8>, Seq<u8>)| r.0.len() >= prefix.len() && r.0.take(prefix.len() as int) == prefix,
        ).map_values(|r: (Seq<u8>, Seq<u8>)| r.1),
    decreases rows.len(),
{
    reveal(Seq::filter);
    let keep = |r: (Seq<u8>, Seq<u8>)|
        r.0.len() >= prefix.len() && r.0.take(prefix.len() as int) == prefix;
    let value = |r: (Seq<u8>, Seq<u8>)| r.1;
    if rows.len() > 0 {
        let init = rows.drop_last();
        law_scans_select_by_prefix(init, prefix);
        let last = rows.last();
        if prefix.is_prefix_of(last.0) {
            assert(last.0.take(prefix.len() as int) =~= prefix);
            assert(init.filter(keep).push(last).map_values(value) =~= init.filter(keep).map_values(
                value,
            ).push(last.1));
        } else if keep(last) {
            assert(prefix =~= last.0.subrange(0, prefix.len() as int));
        }
    } else {
        assert(values_under(rows, prefix) =~= rows.filter(keep).map_values(value));
    }
}

/// A read is answered with the value only on a confirmed check; a replica that does
/// not lead says who does.
pub proof fn law_meta_reads_need_confirmation<T>(
    check: LeaderCheck,
    value: Result<T, ErrorView>,
    named: Option<NodeId>,
)
    ensures
        read_answer(None, check, value) matches Ok(MetaRead::Value(v)) ==> check is Confirmed
            && value == Ok::<T, ErrorView>(v),
        check is Confirmed && value is Ok ==> read_answer(None, check, value) == Ok::<
            MetaRead<T>,
            ErrorView,
        >(MetaRead::Value(value->Ok_0)),
        read_answer(None, check, value) == Ok::<MetaRead<T>, ErrorView>(
            MetaRead::NotLeader { leader: named },
        ) <==> check == LeaderCheck::Forward(named),
{
}

} // verus!
