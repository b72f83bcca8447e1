//! The decision logic of a FaultyCoin node: what its gossip, peer and mining services
//! answer to each event, proved against contracts.
//!
//! Sockets, channels, threads, the block forest and block hashing stay with the caller.
//! The services here are handed what those produced, as plain values, and return what is
//! to be sent, looked up or waited for.
pub mod data;
pub mod gossip_service;
pub mod laws;
pub mod miner;
pub mod mining_service;
pub mod peer_service;
pub mod session;
pub mod session_laws;
