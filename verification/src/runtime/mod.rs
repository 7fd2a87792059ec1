//! What a running node decides: its startup, its control plane, rebalancing,
//! search indexes, administration and status.

pub mod admin;
pub mod config_file;
pub mod directory;
pub mod dispatch;
pub mod http;
pub mod live;
pub mod node;
pub mod readiness;
pub mod rebalance;
pub mod search;
pub mod status;
