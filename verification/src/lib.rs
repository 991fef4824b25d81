//! Peer-handshake and protocol-dispatch layer of a peer-to-peer node.
//!
//! When a transport-level session opens, the node negotiates identity with the
//! remote peer (network membership, capability flags, client version, observed
//! and listened addresses) before any higher-level protocol runs, and polices
//! peer behaviour (duplicate messages, malformed payloads, address-list abuse,
//! handshake timeout), asking for a disconnect or a ban on violation.
//!
//! The crate is a pure decision core: every event handler takes the event's
//! data and the answers to the registry queries it needs as plain values, and
//! returns the effects it asks for (messages to send, sessions to disconnect
//! or ban, registry updates) as values. The surrounding transport loop
//! performs them.

pub mod address;
pub mod dispatch;
pub mod flags;
pub mod identify;
pub mod support;
pub mod wire;
