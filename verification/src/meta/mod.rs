//! The meta group: cluster identity, the node directory, placements and the
//! search catalog, with the decisions made over them.

pub mod sm;
pub mod state;
pub mod state_machine;
pub mod bootstrap;
pub mod failure;
pub mod laws;
pub mod leader;
pub mod node;
pub mod outcomes;
pub mod rebalancer;
pub mod reconcile;
