//! Balances a memory budget across a fixed set of virtual machines.
//!
//! The library holds the allocation rule, the shared registry of
//! per-machine allocation state, the startup configuration format, the
//! control-channel messages and the per-machine worker's decisions.
//! Sockets, threads, signals and logging live with the caller.
pub mod allocation;
pub mod registry;
pub mod protocol;
pub mod worker;
pub mod config;
