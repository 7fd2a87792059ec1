//! Log positions as the replication layer writes them.
use crate::codec::{encode, Wire};
use crate::bytes::le_bytes;
use crate::text::{decimal, prefixed, to_decimal};
use crate::types::{LogId, NodeId};
use vstd::prelude::*;

verus! {

/// A log position with the leader that proposed it.
#[derive(Debug, Clone, Copy, PartialEq, Eq, Structural)]
pub struct RaftLogId {
    pub term: u64,
    pub node_id: NodeId,
    pub index: u64,
}

impl RaftLogId {
    /// The position's name: term, leader and index.
    pub open spec fn spec_text(self) -> Seq<char> {
        "T"@ + decimal(self.term as nat) + "-N"@ + decimal(self.node_id as nat) + "-"@ + decimal(
            self.index as nat,
        )
    }

    /// The serialized form.
    pub open spec fn wire(self) -> Seq<u8> {
        le_bytes(self.term as nat, 8) + le_bytes(self.node_id as nat, 8) + le_bytes(
            self.index as nat,
            8,
        )
    }

    /// The position's name: term, leader and index.
    pub fn to_text(&self) -> (s: String)
        ensures
            s@ == self.spec_text(),
    {
        let mut s = prefixed("T", to_decimal(self.term as u128).as_str());
        s.append("-N");
        s.append(to_decimal(self.node_id as u128).as_str());
        s.append("-");
        s.append(to_decimal(self.index as u128).as_str());
        s
    }

    /// The serialized form.
    pub fn to_bytes(&self) -> (b: Vec<u8>)
        ensures
            b@ == self.wire(),
    {
        let triple: (u64, u64, u64) = (self.term, self.node_id, self.index);
        encode(&triple)
    }

    /// The position without its leader.
    pub fn position(&self) -> (l: LogId)
        ensures
            l == (LogId { term: self.term, index: self.index }),
    {
        LogId::new(self.term, self.index)
    }
}

} // verus!
