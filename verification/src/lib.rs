//! A replicated, partitioned key/value store: the deterministic decisions of
//! its control plane and data plane, each verified against a mathematical model.
//!
//! Everything here computes on plain values. Sockets, files, clocks and the
//! consensus runtime belong to the program around the library, which performs
//! the actions the library decides and hands the observed events back.
#![allow(unused_imports)]

pub mod api;
pub mod assoc;
pub mod bytes;
pub mod cli;
pub mod codec;
pub mod config;
pub mod error;
pub mod hashing;
pub mod keyspace;
pub mod meta;
pub mod number;
pub mod partition;
pub mod perf;
pub mod placement;
pub mod runtime;
pub mod search;
mod sealed;
pub mod sets;
pub mod storage;
pub mod strings;
pub mod tables;
pub mod text;
pub mod time;
pub mod transport;
pub mod types;
pub mod wire;
