//! What clients send and receive: operations and replies, the node's gateway and
//! the client's routing.

pub mod client;
pub mod gateway;
pub mod ops;
pub mod route;
