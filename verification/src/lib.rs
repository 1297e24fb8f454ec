//! A small peer-to-peer node: peer bookkeeping, the messages that peers exchange,
//! and the plans by which a node sends one message to a list of peers.
//!
//! The network, the clock, the terminal and the JSON wire format live in the
//! program around this library; everything that decides what to send, to whom,
//! and what to do with what arrives lives here, with its contract.
pub mod address;
pub mod message;
pub mod fanout;
pub mod node_id;
pub mod sampling;
pub mod node;
pub mod gossip;
