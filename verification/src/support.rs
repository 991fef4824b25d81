//! The table of supported protocols.
//!
//! Each protocol has a stable numeric id, a stable name, a list of supported
//! version strings, a maximum frame length, and a blocking policy that says
//! which lifecycle events must run on the blocking thread pool rather than on
//! the event-loop thread. The table is fixed: peers interoperate only if both
//! sides agree on it.

use vstd::prelude::*;

verus! {

/// Numeric identifier of a protocol on the wire.
pub type ProtocolId = usize;

/// Which lifecycle events of a protocol run as blocking work. A `true` field
/// means the event handler may block and is moved off the event-loop thread.
#[derive(Clone, Copy, Debug, PartialEq, Eq, Structural)]
pub struct BlockingPolicy {
    /// The connected handler blocks.
    pub connected: bool,
    /// The disconnected handler blocks.
    pub disconnected: bool,
    /// The receive handler blocks.
    pub received: bool,
    /// The notify handler blocks.
    pub notify: bool,
}

/// All supported protocols.
///
/// The identify protocol is the first one opened when two nodes connect; the
/// feeler protocol probes whether an address is alive; sync and relay carry
/// the bulk application traffic and are the only ones whose receive path may
/// block.
#[derive(Clone, Debug, PartialEq, Eq, Structural)]
pub enum SupportProtocols {
    /// Health check.
    Ping,
    /// Node-address gossip, used to build the network topology.
    Discovery,
    /// The identify handshake: features, versions and observed addresses.
    Identify,
    /// Probe whether an address is alive.
    Feeler,
    /// A last debug message sent when a node decides to disconnect.
    DisconnectMessage,
    /// Block synchronization.
    Sync,
    /// Relay of fresh transactions and blocks.
    RelayV2,
    /// Warns when local and remote clocks drift too far apart.
    Time,
    /// Network-wide announcements, verified by multi-signature.
    Alert,
}

impl SupportProtocols {
    /// The fixed numeric id of the protocol.
    pub open spec fn spec_protocol_id(self) -> ProtocolId {
        match self {
            SupportProtocols::Ping => 0,
            SupportProtocols::Discovery => 1,
            SupportProtocols::Identify => 2,
            SupportProtocols::Feeler => 3,
            SupportProtocols::DisconnectMessage => 4,
            SupportProtocols::Sync => 100,
            SupportProtocols::RelayV2 => 101,
            SupportProtocols::Time => 102,
            SupportProtocols::Alert => 110,
        }
    }

    /// The fixed numeric id of the protocol.
    pub fn protocol_id(&self) -> (r: ProtocolId)
        ensures
            r == self.spec_protocol_id(),
    {
        match self {
            SupportProtocols::Ping => 0,
            SupportProtocols::Discovery => 1,
            SupportProtocols::Identify => 2,
            SupportProtocols::Feeler => 3,
            SupportProtocols::DisconnectMessage => 4,
            SupportProtocols::Sync => 100,
            SupportProtocols::RelayV2 => 101,
            SupportProtocols::Time => 102,
            SupportProtocols::Alert => 110,
        }
    }

    /// The stable wire name of the protocol.
    pub open spec fn spec_name(self) -> Seq<char> {
        match self {
            SupportProtocols::Ping => "/ckb/ping"@,
            SupportProtocols::Discovery => "/ckb/discovery"@,
            SupportProtocols::Identify => "/ckb/identify"@,
            SupportProtocols::Feeler => "/ckb/flr"@,
            SupportProtocols::DisconnectMessage => "/ckb/disconnectmsg"@,
            SupportProtocols::Sync => "/ckb/syn"@,
            SupportProtocols::RelayV2 => "/ckb/relay"@,
            SupportProtocols::Time => "/ckb/tim"@,
            SupportProtocols::Alert => "/ckb/alt"@,
        }
    }

    /// The stable wire name of the protocol.
    pub fn name(&self) -> (r: String)
        ensures
            r@ == self.spec_name(),
    {
        match self {
            SupportProtocols::Ping => "/ckb/ping".to_owned(),
            SupportProtocols::Discovery => "/ckb/discovery".to_owned(),
            SupportProtocols::Identify => "/ckb/identify".to_owned(),
            SupportProtocols::Feeler => "/ckb/flr".to_owned(),
            SupportProtocols::DisconnectMessage => "/ckb/disconnectmsg".to_owned(),
            SupportProtocols::Sync => "/ckb/syn".to_owned(),
            SupportProtocols::RelayV2 => "/ckb/relay".to_owned(),
            SupportProtocols::Time => "/ckb/tim".to_owned(),
            SupportProtocols::Alert => "/ckb/alt".to_owned(),
        }
    }

    /// The version strings the local node speaks, one per protocol.
    pub fn support_versions(&self) -> (r: Vec<String>)
        ensures
            r@.len() == 1,
            r@[0]@ == "2"@,
    {
        let v = "2".to_owned();
        let mut r: Vec<String> = Vec::new();
        r.push(v);
        r
    }

    /// The maximum frame length in bytes accepted on this protocol.
    pub open spec fn spec_max_frame_length(self) -> usize {
        match self {
            SupportProtocols::Ping => 1024usize,
            SupportProtocols::Discovery => 524288usize,
            SupportProtocols::Identify => 2048usize,
            SupportProtocols::Feeler => 1024usize,
            SupportProtocols::DisconnectMessage => 1024usize,
            SupportProtocols::Sync => 2097152usize,
            SupportProtocols::RelayV2 => 4194304usize,
            SupportProtocols::Time => 1024usize,
            SupportProtocols::Alert => 131072usize,
        }
    }

    /// The maximum frame length in bytes accepted on this protocol.
    pub fn max_frame_length(&self) -> (r: usize)
        ensures
            r == self.spec_max_frame_length(),
    {
        match self {
            SupportProtocols::Ping => 1024,
            SupportProtocols::Discovery => 512 * 1024,
            SupportProtocols::Identify => 2 * 1024,
            SupportProtocols::Feeler => 1024,
            SupportProtocols::DisconnectMessage => 1024,
            SupportProtocols::Sync => 2 * 1024 * 1024,
            SupportProtocols::RelayV2 => 4 * 1024 * 1024,
            SupportProtocols::Time => 1024,
            SupportProtocols::Alert => 128 * 1024,
        }
    }

    /// The blocking policy: only the receive path of the bulk protocols
    /// (sync and relay) runs on the blocking pool.
    pub open spec fn spec_flag(self) -> BlockingPolicy {
        match self {
            SupportProtocols::Sync | SupportProtocols::RelayV2 => BlockingPolicy {
                connected: false,
                disconnected: false,
                received: true,
                notify: false,
            },
            _ => BlockingPolicy {
                connected: false,
                disconnected: false,
                received: false,
                notify: false,
            },
        }
    }

    /// The blocking policy of the protocol.
    pub fn flag(&self) -> (r: BlockingPolicy)
        ensures
            r == self.spec_flag(),
    {
        match self {
            SupportProtocols::Sync | SupportProtocols::RelayV2 => BlockingPolicy {
                connected: false,
                disconnected: false,
                received: true,
                notify: false,
            },
            _ => BlockingPolicy {
                connected: false,
                disconnected: false,
                received: false,
                notify: false,
            },
        }
    }
}

} // verus!
