//! Consensus core of a PBFT-style block-ordering engine: the error taxonomy,
//! the vote log with quorum counting, the per-node protocol state machine,
//! phase deadlines with backoff, and the view-change sub-protocol.

pub mod error;
pub mod types;
pub mod log;
pub mod state;
pub mod timeout;
pub mod node;
