//! A data group: its state, the rules for applying mutations, and the decisions
//! around reads, writes and replication.

pub mod laws;
pub mod log_store;
pub mod network;
pub mod node;
pub mod raft_types;
pub mod sm;
pub mod state_machine;
pub mod table;
