//! Host-side OmniXtend protocol engine.
//!
//! A reliable, sequenced, credit-governed transport that carries TileLink
//! coherence traffic over raw Ethernet frames between a host process and a
//! memory endpoint.  The crate holds the protocol core: 22-bit modular
//! sequence numbers, per-channel credit pools, the wire codec for the
//! Ethernet/OmniXtend header and the TileLink flits, the per-peer connection
//! state machine with resend buffer and open/close handshake, the operation
//! dispatcher with its source-tag pool, a coherent client cache with probe
//! handling, and the periodic tick decisions.  Frame transmit and receive,
//! threads and timers live outside the crate; every function here is a pure
//! step from values to values.

pub mod cache;
pub mod channels;
pub mod connection;
pub mod credits;
pub mod omnixtend;
pub mod operations;
pub mod sequence_number;
pub mod tick;
pub mod tilelink_messages;
pub mod utils;
pub mod wire;

use vstd::prelude::*;

verus! {

/// The engine's top-level error, raised while digesting a received frame.
#[derive(Debug, Clone, Copy, PartialEq, Eq, Structural)]
pub enum Error {
    ConnectionError { source: connection::Error },
}

} // verus!
