//! Nodes of a simulated cluster that talk in messages: a broadcast node
//! that spreads values by gossip, a node that keeps an append-only log in
//! two key-value services, and a node that hands out unique identifiers.
//!
//! The library holds what the nodes decide: which messages an event gives
//! rise to, which calls an operation makes and what it does with their
//! outcomes. Reading, writing and waiting are left to the program around
//! it.

pub mod broadcast;
pub mod broadcast_facts;
pub mod cluster;
pub mod decimal;
pub mod kv;
pub mod log;
pub mod log_facts;
pub mod message;
pub mod rpc;
pub mod unique_ids;
pub mod values;
