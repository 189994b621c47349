//! Peer bookkeeping for a blockchain network node.
//!
//! A [`manager::NodesManager`] knows which addresses may be dialed, which
//! sessions are open, which peers they belong to and whether all validators
//! are linked. It changes only in answer to a message or a tick, and says what
//! the network layer has to do next as a list of [`action::Action`]s.
pub mod action;
pub mod address;
pub mod bytes;
pub mod cert;
pub mod chance;
pub mod client;
pub mod config;
pub mod config_addrs;
pub mod crl;
pub mod dialing;
pub mod effects;
pub mod fnv_map;
pub mod gossip;
pub mod init_msg;
pub mod laws;
pub mod manager;
pub mod message;
pub mod nodes;
pub mod order;
pub mod pem;
pub mod revocation;
pub mod sessions;
pub mod state;
pub mod text;
pub mod ticks;
pub mod topology;
pub mod types;
