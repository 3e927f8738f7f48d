//! The TARON chain: an ordered chain of blocks with its difficulty rules, its
//! ledger bookkeeping, and the decisions a node takes while it keeps that chain
//! in step with its peers.
//!
//! Everything here is verified. The library holds no socket and no file: what
//! has to be read from disk or from a peer is handed in as plain values, and
//! what has to be written or sent comes back as plain values.

pub mod apply;
pub mod batch;
pub mod batch_laws;
pub mod block;
pub mod block_laws;
pub mod blockchain;
pub mod codec;
pub mod difficulty;
pub mod difficulty_laws;
pub mod geo;
pub mod hash;
pub mod history_laws;
pub mod laws;
pub mod ledger;
pub mod ledger_laws;
pub mod load;
pub mod locator_laws;
pub mod memory_laws;
pub mod message_laws;
pub mod model;
pub mod node;
pub mod node_laws;
pub mod opening_laws;
pub mod params;
pub mod peer_laws;
pub mod peers;
pub mod queries;
pub mod records;
pub mod session;
pub mod sync;
pub mod transactions;
