//! Forwarding core of a store-and-forward mesh radio node: a deduplication
//! ledger for flood control, a bounded least-recently-used node directory,
//! and a flooding router that decides whether an inbound packet is relayed.

pub mod clock;
pub mod errors;
pub mod node_db;
pub mod packet_history;
pub mod packets;
pub mod radio_interface;
pub mod router;
pub mod types;
