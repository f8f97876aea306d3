//! The channel-level core of a peer-to-peer document synchronisation engine:
//! identifiers and wire messages, the handshake that turns a raw message
//! channel into a peer channel, the filters and the outgoing queue of an
//! established channel, the set of installed peers, the table of sync
//! sessions, and the negotiation for a requested document.

pub mod channel;
pub mod handshake;
pub mod identity;
pub mod message;
pub mod peers;
pub mod requests;
pub mod sessions;
pub mod version;
