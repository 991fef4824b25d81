//! The identify handshake state machine.
//!
//! One state record exists per live session, created on `connected` and
//! removed on `disconnected`. A received payload runs through four checks in
//! order — duplicate, identity verification, listen-address processing,
//! observed-address processing — and every check runs even after an earlier
//! one has asked for a disconnect; the verdicts are accumulated in the
//! returned outcome and acted on at the end. The surrounding transport loop
//! performs the requested effects and answers the registry queries the
//! handshake needs (whether an address is a feeler probe, whether it is
//! banned, the node's public addresses).

use vstd::prelude::*;
use vstd::string::StrSliceExecFns;

use crate::address::{
    addr_reachable, addr_views, clone_bytes, filter_reachable, keep_addr, socket_port,
    spec_addr_reachable, spec_filter_reachable, spec_keep_addr, spec_socket_port, spec_with_peer,
    spec_with_port, with_peer, with_port, AddrView, NetAddress,
};
use crate::flags::{Flag, Flags};
use crate::wire::{enc_payload, parse_payload, wf_addr, wf_bytes, IdentifyPayload, PayloadView};

verus! {

/// Cap on the listen addresses accepted from a peer in one payload.
pub const MAX_ADDRS: usize = 10;

/// Cap on the listen addresses advertised to a peer.
pub const MAX_RETURN_LISTEN_ADDRS: usize = 10;

/// How long a session is banned when the peer is on a different network.
pub const BAN_ON_NOT_SAME_NET_MS: u64 = 300000;

/// Token under which the timeout sweep is registered.
pub const CHECK_TIMEOUT_TOKEN: u64 = 100;

/// Interval of the timeout sweep.
pub const CHECK_TIMEOUT_INTERVAL_MS: u64 = 1000;

/// How long a session may stay without a received identify payload.
pub const DEFAULT_TIMEOUT_MS: u64 = 8000;

/// Direction of a session.
#[derive(Clone, Copy, Debug, PartialEq, Eq, Structural)]
pub enum SessionType {
    /// The remote peer dialed us.
    Inbound,
    /// We dialed the remote peer.
    Outbound,
}

impl SessionType {
    /// Whether we dialed the remote peer.
    pub fn is_outbound(&self) -> (r: bool)
        ensures
            r == (*self == SessionType::Outbound),
    {
        matches!(self, SessionType::Outbound)
    }

    /// Whether the remote peer dialed us.
    pub fn is_inbound(&self) -> (r: bool)
        ensures
            r == (*self == SessionType::Inbound),
    {
        matches!(self, SessionType::Inbound)
    }
}

/// Transport-supplied data about one session.
#[derive(Debug)]
pub struct SessionInfo {
    /// Opaque session identifier.
    pub id: u64,
    /// Direction of the session.
    pub ty: SessionType,
    /// The address the remote peer appears to originate from.
    pub address: NetAddress,
}

/// The mathematical value of a [`SessionInfo`].
pub struct SessionView {
    /// Session identifier.
    pub id: u64,
    /// Direction.
    pub ty: SessionType,
    /// Remote address.
    pub address: AddrView,
}

impl View for SessionInfo {
    type V = SessionView;

    open spec fn view(&self) -> SessionView {
        SessionView { id: self.id, ty: self.ty, address: self.address@ }
    }
}

/// Per-session handshake state, one per live session.
#[derive(Debug)]
pub struct RemoteInfo {
    /// The session this record belongs to.
    pub session: SessionInfo,
    /// When the session connected, in milliseconds.
    pub connected_at: u64,
    /// Handshake timeout in milliseconds.
    pub timeout: u64,
    /// Whether an identify payload has been received on this session.
    pub has_received: bool,
}

/// The mathematical value of a [`RemoteInfo`].
pub struct RemoteView {
    /// The session.
    pub session: SessionView,
    /// Connection time in milliseconds.
    pub connected_at: u64,
    /// Handshake timeout in milliseconds.
    pub timeout: u64,
    /// Whether an identify payload has been received.
    pub has_received: bool,
}

impl View for RemoteInfo {
    type V = RemoteView;

    open spec fn view(&self) -> RemoteView {
        RemoteView {
            session: self.session@,
            connected_at: self.connected_at,
            timeout: self.timeout,
            has_received: self.has_received,
        }
    }
}

impl RemoteInfo {
    /// A fresh record for a session that just connected.
    pub fn new(session: SessionInfo, connected_at: u64, timeout: u64) -> (r: RemoteInfo)
        ensures
            r@ == (RemoteView {
                session: session@,
                connected_at,
                timeout,
                has_received: false,
            }),
    {
        RemoteInfo { session, connected_at, timeout, has_received: false }
    }
}

/// Misbehavior detected on a session.
#[derive(Clone, Copy, Debug, PartialEq, Eq, Structural)]
pub enum Misbehavior {
    /// The peer sent a second identify payload.
    DuplicateReceived,
    /// The handshake timeout elapsed without a payload.
    Timeout,
    /// The peer sent a payload that does not decode.
    InvalidData,
    /// The peer sent more listen addresses than the cap allows.
    TooManyAddresses(usize),
}

/// What the misbehavior policy decides about a session.
#[derive(Clone, Copy, Debug, PartialEq, Eq, Structural)]
pub enum MisbehaveResult {
    /// Keep the session running.
    Continue,
    /// Disconnect the session.
    Disconnect,
}

impl MisbehaveResult {
    /// Whether the verdict asks for a disconnect.
    pub fn is_disconnect(&self) -> (r: bool)
        ensures
            r == (*self == MisbehaveResult::Disconnect),
    {
        matches!(self, MisbehaveResult::Disconnect)
    }
}

/// Compares two byte strings.
pub fn bytes_eq(a: &Vec<u8>, b: &Vec<u8>) -> (r: bool)
    ensures
        r == (a@ == b@),
{
    if a.len() != b.len() {
        return false;
    }
    let n = a.len();
    for i in 0..n
        invariant
            n == a.len() == b.len(),
            forall|k: int| 0 <= k < i ==> a@[k] == b@[k],
    {
        if a[i] != b[i] {
            return false;
        }
    }
    proof {
        assert(a@ =~= b@);
    }
    true
}

/// The local node's identity as sent and checked during the handshake.
#[derive(Debug)]
pub struct Identify {
    /// Name of the network the node belongs to, as raw bytes.
    pub name: Vec<u8>,
    /// Capability bitmask of the node.
    pub flags: Flags,
    /// Client version of the node, as raw bytes.
    pub client_version: Vec<u8>,
}

/// The mathematical value of an [`Identify`].
pub struct IdentityView {
    /// Network name bytes.
    pub name: Seq<u8>,
    /// Capability bitmask.
    pub flags: Flags,
    /// Client version bytes.
    pub client_version: Seq<u8>,
}

impl View for Identify {
    type V = IdentityView;

    open spec fn view(&self) -> IdentityView {
        IdentityView { name: self.name@, flags: self.flags, client_version: self.client_version@ }
    }
}

impl Identify {
    /// A local identity from the network name, capability flags and client
    /// version. The strings must fit behind the wire format's two-byte
    /// length prefix.
    pub fn new(name: String, flags: Flags, client_version: String) -> (r: Identify)
        requires
            vstd::utf8::encode_utf8(name@).len() < 65536,
            vstd::utf8::encode_utf8(client_version@).len() < 65536,
        ensures
            r@.name == vstd::utf8::encode_utf8(name@),
            r@.flags == flags,
            r@.client_version == vstd::utf8::encode_utf8(client_version@),
    {
        Identify {
            name: name.as_str().as_bytes_vec(),
            flags,
            client_version: client_version.as_str().as_bytes_vec(),
        }
    }

    /// Verifies the identity fields of a received payload. Returns the
    /// remote flags and client version exactly when the remote network name
    /// equals the local one and the flags value is not zero; a differing
    /// name or a zero flags value yields no match, whatever the rest of the
    /// payload holds.
    pub fn verify(&self, name: &Vec<u8>, flags_val: u64, client_version: &Vec<u8>) -> (r: Option<
        (Flags, Vec<u8>),
    >)
        ensures
            (r is Some) <==> (name@ == self.name@ && flags_val != 0),
            r matches Option::Some(fv) ==> fv.0 == (Flags(flags_val)) && fv.1@
                == client_version@,
    {
        if !bytes_eq(name, &self.name) {
            Option::None
        } else if flags_val == 0 {
            Option::None
        } else {
            Option::Some((Flags(flags_val), clone_bytes(client_version)))
        }
    }
}

/// What identity verification decided for a received payload.
#[derive(Debug)]
pub enum VerifyOutcome {
    /// The peer is on a different network: ban it and disconnect.
    BanDifferentNetwork,
    /// The flags value was zero: treat as unparseable and disconnect,
    /// without a ban.
    InvalidFlags,
    /// Outbound feeler probe: open only the feeler protocol.
    OpenFeeler,
    /// Outbound session whose flags cover the local requirement: record the
    /// version and open every protocol except the feeler.
    OpenAllProtocols {
        /// The negotiated client version.
        version: Vec<u8>,
    },
    /// Outbound session whose flags miss a required bit: disconnect.
    FlagsMismatch,
    /// Inbound sessions are neither feeler-checked nor flag-gated: record
    /// the version.
    InboundAccept {
        /// The negotiated client version.
        version: Vec<u8>,
    },
}

/// The mathematical value of a [`VerifyOutcome`].
pub enum VerifyView {
    /// Ban and disconnect.
    BanDifferentNetwork,
    /// Disconnect without a ban.
    InvalidFlags,
    /// Open only the feeler protocol.
    OpenFeeler,
    /// Record the version and open all protocols except the feeler.
    OpenAllProtocols {
        /// Negotiated client version.
        version: Seq<u8>,
    },
    /// Disconnect: flags insufficient.
    FlagsMismatch,
    /// Record the version.
    InboundAccept {
        /// Negotiated client version.
        version: Seq<u8>,
    },
}

impl View for VerifyOutcome {
    type V = VerifyView;

    open spec fn view(&self) -> VerifyView {
        match self {
            VerifyOutcome::BanDifferentNetwork => VerifyView::BanDifferentNetwork,
            VerifyOutcome::InvalidFlags => VerifyView::InvalidFlags,
            VerifyOutcome::OpenFeeler => VerifyView::OpenFeeler,
            VerifyOutcome::OpenAllProtocols { version } => VerifyView::OpenAllProtocols {
                version: version@,
            },
            VerifyOutcome::FlagsMismatch => VerifyView::FlagsMismatch,
            VerifyOutcome::InboundAccept { version } => VerifyView::InboundAccept {
                version: version@,
            },
        }
    }
}

/// The decision identity verification takes, as a function of the local
/// identity, the session direction, the feeler answer and the received
/// fields.
pub open spec fn spec_verify_outcome(
    local: IdentityView,
    ty: SessionType,
    is_feeler: bool,
    name: Seq<u8>,
    flags_val: u64,
    client_version: Seq<u8>,
) -> VerifyView {
    if name != local.name {
        VerifyView::BanDifferentNetwork
    } else if flags_val == 0 {
        VerifyView::InvalidFlags
    } else if ty == SessionType::Outbound {
        if is_feeler {
            VerifyView::OpenFeeler
        } else if Flags(flags_val).spec_contains(local.flags) {
            VerifyView::OpenAllProtocols { version: client_version }
        } else {
            VerifyView::FlagsMismatch
        }
    } else {
        VerifyView::InboundAccept { version: client_version }
    }
}

/// A ban requested for a session.
#[derive(Debug)]
pub struct BanRequest {
    /// The session to ban.
    pub session: u64,
    /// Ban duration in milliseconds.
    pub duration_ms: u64,
    /// Human-readable reason.
    pub reason: String,
}

impl VerifyOutcome {
    /// The verdict of the verification step: disconnect on a different
    /// network, a zero flags value, or insufficient outbound flags.
    pub fn verdict(&self) -> (r: MisbehaveResult)
        ensures
            r == MisbehaveResult::Disconnect <==> (self@ == VerifyView::BanDifferentNetwork
                || self@ == VerifyView::InvalidFlags || self@ == VerifyView::FlagsMismatch),
    {
        match self {
            VerifyOutcome::BanDifferentNetwork => MisbehaveResult::Disconnect,
            VerifyOutcome::InvalidFlags => MisbehaveResult::Disconnect,
            VerifyOutcome::FlagsMismatch => MisbehaveResult::Disconnect,
            _ => MisbehaveResult::Continue,
        }
    }

    /// The ban this outcome asks for: only a network-name mismatch is
    /// banned, for a fixed duration.
    pub fn ban_request(&self, session: u64) -> (r: Option<BanRequest>)
        ensures
            (r is Some) <==> self@ == VerifyView::BanDifferentNetwork,
            r matches Option::Some(b) ==> b.session == session && b.duration_ms
                == BAN_ON_NOT_SAME_NET_MS && b.reason@ == "different network"@,
    {
        match self {
            VerifyOutcome::BanDifferentNetwork => Option::Some(
                BanRequest {
                    session,
                    duration_ms: BAN_ON_NOT_SAME_NET_MS,
                    reason: "different network".to_owned(),
                },
            ),
            _ => Option::None,
        }
    }
}

/// What listen-address processing decided.
#[derive(Debug)]
pub enum ListensOutcome {
    /// The peer sent more addresses than the cap allows: disconnect.
    TooMany {
        /// How many addresses the payload carried.
        count: usize,
    },
    /// The reachable addresses to record for the session and to persist as
    /// discovered candidates.
    Accepted {
        /// The filtered addresses.
        addrs: Vec<NetAddress>,
    },
}

/// The mathematical value of a [`ListensOutcome`].
pub enum ListensView {
    /// Too many addresses.
    TooMany {
        /// How many the payload carried.
        count: usize,
    },
    /// The filtered addresses.
    Accepted {
        /// The filtered addresses.
        addrs: Seq<AddrView>,
    },
}

impl View for ListensOutcome {
    type V = ListensView;

    open spec fn view(&self) -> ListensView {
        match self {
            ListensOutcome::TooMany { count } => ListensView::TooMany { count: *count },
            ListensOutcome::Accepted { addrs } => ListensView::Accepted {
                addrs: addr_views(addrs@),
            },
        }
    }
}

/// The decision listen-address processing takes.
pub open spec fn spec_listens_outcome(listens: Seq<AddrView>, global_ip_only: bool) -> ListensView {
    if listens.len() > 10 {
        ListensView::TooMany { count: listens.len() as usize }
    } else {
        ListensView::Accepted { addrs: spec_filter_reachable(listens, global_ip_only) }
    }
}

impl ListensOutcome {
    /// The verdict of the listen-address step: disconnect only over the cap.
    pub fn verdict(&self) -> (r: MisbehaveResult)
        ensures
            r == MisbehaveResult::Disconnect <==> (self@ matches ListensView::TooMany { .. }),
    {
        match self {
            ListensOutcome::TooMany { .. } => MisbehaveResult::Disconnect,
            ListensOutcome::Accepted { .. } => MisbehaveResult::Continue,
        }
    }
}

/// What observed-address processing decided. It never asks for a
/// disconnect.
#[derive(Debug)]
pub enum ObservedOutcome {
    /// Nothing to learn: the session is inbound, or the observed address is
    /// not a reachable socket.
    Skipped,
    /// Candidate self-addresses for the discovery pool: one per locally
    /// advertised listen port, plus the raw observed address, each carrying
    /// a peer-identity suffix.
    Candidates {
        /// The candidate addresses.
        addrs: Vec<NetAddress>,
    },
}

/// The mathematical value of an [`ObservedOutcome`].
pub enum ObservedView {
    /// Nothing to learn.
    Skipped,
    /// Candidate self-addresses.
    Candidates {
        /// The candidate addresses.
        addrs: Seq<AddrView>,
    },
}

impl View for ObservedOutcome {
    type V = ObservedView;

    open spec fn view(&self) -> ObservedView {
        match self {
            ObservedOutcome::Skipped => ObservedView::Skipped,
            ObservedOutcome::Candidates { addrs } => ObservedView::Candidates {
                addrs: addr_views(addrs@),
            },
        }
    }
}

/// The first ten elements of a list, or all of it when shorter.
pub open spec fn spec_cap10(s: Seq<AddrView>) -> Seq<AddrView> {
    if s.len() <= 10 {
        s
    } else {
        s.take(10)
    }
}

/// One candidate per socket listen address, the observed address with that
/// port substituted, followed by the raw observed address.
pub open spec fn spec_candidates(listens: Seq<AddrView>, obs: AddrView) -> Seq<AddrView>
    decreases listens.len(),
{
    if listens.len() == 0 {
        seq![obs]
    } else {
        match spec_socket_port(listens[0]) {
            Option::Some(p) => seq![spec_with_port(obs, p)] + spec_candidates(
                listens.drop_first(),
                obs,
            ),
            Option::None => spec_candidates(listens.drop_first(), obs),
        }
    }
}

/// The decision observed-address processing takes: inbound sessions and
/// unreachable addresses teach nothing; otherwise the peer-identity suffix
/// is ensured and the candidates are derived from the capped local listen
/// list.
pub open spec fn spec_observed_outcome(
    obs: AddrView,
    ty: SessionType,
    global_ip_only: bool,
    listens: Seq<AddrView>,
    peer_id: Seq<u8>,
) -> ObservedView {
    if !spec_keep_addr(obs, global_ip_only) {
        ObservedView::Skipped
    } else if ty == SessionType::Inbound {
        ObservedView::Skipped
    } else if !spec_addr_reachable(obs) {
        ObservedView::Skipped
    } else {
        ObservedView::Candidates {
            addrs: spec_candidates(spec_cap10(listens), spec_with_peer(obs, peer_id)),
        }
    }
}

/// A peer's accepted listen addresses, bound for the registry and the peer
/// store.
#[derive(Debug)]
pub struct ListenAddrsRecord {
    /// The session the addresses belong to.
    pub session: u64,
    /// The list to record as the session's known listen addresses.
    pub record: Vec<NetAddress>,
    /// The addresses to persist as discovered candidates, one by one.
    pub persist: Vec<NetAddress>,
}

/// The registry bookkeeping requested when a session opens.
#[derive(Debug)]
pub struct RegisterOutcome {
    /// The session whose protocol-version entry to set.
    pub session: u64,
    /// The negotiated protocol version to record.
    pub version: String,
    /// An outbound session's address to store as a known outbound address.
    pub add_outbound_addr: Option<NetAddress>,
}

/// The callback side of the handshake: the local identity plus the
/// decisions that consult it. In the running node these decisions feed the
/// peer registry and peer store; here they return what is to be done.
#[derive(Debug)]
pub struct IdentifyCallback {
    /// The local peer identity appended to observed addresses.
    pub local_peer_id: Vec<u8>,
    /// The local identity sent to and checked against peers.
    pub identify: Identify,
}

/// The mathematical value of an [`IdentifyCallback`].
pub struct CallbackView {
    /// Local peer identity bytes.
    pub local_peer_id: Seq<u8>,
    /// Local identity.
    pub identify: IdentityView,
}

impl View for IdentifyCallback {
    type V = CallbackView;

    open spec fn view(&self) -> CallbackView {
        CallbackView { local_peer_id: self.local_peer_id@, identify: self.identify@ }
    }
}

impl IdentifyCallback {
    /// A callback for a node with the given peer identity, network name and
    /// client version. The node advertises the full-node capability.
    pub fn new(local_peer_id: Vec<u8>, name: String, client_version: String) -> (r:
        IdentifyCallback)
        requires
            vstd::utf8::encode_utf8(name@).len() < 65536,
            vstd::utf8::encode_utf8(client_version@).len() < 65536,
        ensures
            r@.local_peer_id == local_peer_id@,
            r@.identify.name == vstd::utf8::encode_utf8(name@),
            r@.identify.flags == (Flags(Flag::FullNode.spec_bits())),
            r@.identify.client_version == vstd::utf8::encode_utf8(client_version@),
    {
        let flags = Flags(Flag::FullNode.bits());
        IdentifyCallback { local_peer_id, identify: Identify::new(name, flags, client_version) }
    }

    /// The listen addresses to advertise, capped.
    pub fn listen_addrs(&self, public_addrs: Vec<NetAddress>) -> (r: Vec<NetAddress>)
        ensures
            addr_views(r@) == spec_cap10(addr_views(public_addrs@)),
    {
        let mut addrs = public_addrs;
        if addrs.len() > MAX_RETURN_LISTEN_ADDRS {
            addrs.truncate(MAX_RETURN_LISTEN_ADDRS);
            proof {
                assert(addr_views(addrs@) =~= spec_cap10(addr_views(public_addrs@)));
            }
        }
        addrs
    }

    /// The registry bookkeeping for a session that just opened: record the
    /// negotiated version; for an outbound session, also store its address
    /// as a known outbound address.
    pub fn register(&self, session: &SessionInfo, version: &String) -> (r: RegisterOutcome)
        ensures
            r.session == session.id,
            r.version@ == version@,
            session.ty == SessionType::Outbound ==> (r.add_outbound_addr matches Option::Some(a)
                && a@ == session.address@),
            session.ty == SessionType::Inbound ==> r.add_outbound_addr is None,
    {
        let add_outbound_addr = if session.ty.is_outbound() {
            Option::Some(session.address.clone())
        } else {
            Option::None
        };
        RegisterOutcome { session: session.id, version: version.clone(), add_outbound_addr }
    }

    /// The bookkeeping for a session that closed: an outbound session's
    /// address is stored again unless it is banned, so that a long-lived
    /// peer is not evicted by the store's age filter.
    pub fn unregister(&self, session: &SessionInfo, addr_banned: bool) -> (r: Option<NetAddress>)
        ensures
            (r is Some) <==> (session.ty == SessionType::Outbound && !addr_banned),
            r matches Option::Some(a) ==> a@ == session.address@,
    {
        if session.ty.is_outbound() && !addr_banned {
            Option::Some(session.address.clone())
        } else {
            Option::None
        }
    }

    /// Verifies the identity fields of a received payload and decides what
    /// follows: a differing network name is banned; zero flags disconnect
    /// without a ban; an outbound feeler probe opens only the feeler
    /// protocol; an outbound peer covering the local flags opens everything
    /// but the feeler; an outbound peer missing a bit is disconnected; an
    /// inbound peer just has its version recorded.
    pub fn received_identify(
        &self,
        ty: SessionType,
        is_feeler: bool,
        name: &Vec<u8>,
        flags_val: u64,
        client_version: &Vec<u8>,
    ) -> (r: VerifyOutcome)
        ensures
            r@ == spec_verify_outcome(
                self@.identify,
                ty,
                is_feeler,
                name@,
                flags_val,
                client_version@,
            ),
    {
        if !bytes_eq(name, &self.identify.name) {
            VerifyOutcome::BanDifferentNetwork
        } else {
            match self.identify.verify(name, flags_val, client_version) {
                Option::None => VerifyOutcome::InvalidFlags,
                Option::Some((flags, version)) => {
                    if ty.is_outbound() {
                        if is_feeler {
                            VerifyOutcome::OpenFeeler
                        } else if flags.contains(self.identify.flags) {
                            VerifyOutcome::OpenAllProtocols { version }
                        } else {
                            VerifyOutcome::FlagsMismatch
                        }
                    } else {
                        VerifyOutcome::InboundAccept { version }
                    }
                },
            }
        }
    }

    /// Splits a peer's accepted listen addresses into the two bookkeeping
    /// targets: the registry records the list as the session's known listen
    /// addresses, and the peer store persists each one as a discovered
    /// candidate. A failure to persist one address is logged by the caller
    /// and does not abort the remaining ones.
    pub fn add_remote_listen_addrs(&self, session: u64, addrs: Vec<NetAddress>) -> (r:
        ListenAddrsRecord)
        ensures
            r.session == session,
            addr_views(r.record@) == addr_views(addrs@),
            addr_views(r.persist@) == addr_views(addrs@),
    {
        let record = clone_addrs(&addrs);
        ListenAddrsRecord { session, record, persist: addrs }
    }

    /// Derives the candidate self-addresses from an observed address: an
    /// inbound peer's view adds nothing, an unreachable address is dropped,
    /// and otherwise one candidate per locally advertised listen port plus
    /// the raw observed address is produced, each carrying the local peer
    /// identity when the observed address had none.
    pub fn add_observed_addr(
        &self,
        addr: NetAddress,
        ty: SessionType,
        public_addrs: &Vec<NetAddress>,
    ) -> (r: ObservedOutcome)
        ensures
            ty == SessionType::Inbound ==> r@ == ObservedView::Skipped,
            ty == SessionType::Outbound && !spec_addr_reachable(addr@) ==> r@
                == ObservedView::Skipped,
            ty == SessionType::Outbound && spec_addr_reachable(addr@) ==> r@
                == (ObservedView::Candidates {
                addrs: spec_candidates(
                    spec_cap10(addr_views(public_addrs@)),
                    spec_with_peer(addr@, self@.local_peer_id),
                ),
            }),
    {
        if ty.is_inbound() {
            return ObservedOutcome::Skipped;
        }
        if !addr_reachable(&addr) {
            return ObservedOutcome::Skipped;
        }
        let obs = with_peer(addr, &self.local_peer_id);
        let ghost obs_v = obs@;
        let listens = self.listen_addrs(clone_addrs(public_addrs));
        let ghost lv = addr_views(listens@);
        let mut out: Vec<NetAddress> = Vec::new();
        let n = listens.len();
        proof {
            assert(lv.skip(0) =~= lv);
            assert(addr_views(out@) =~= Seq::<AddrView>::empty());
            assert(addr_views(out@) + spec_candidates(lv.skip(0), obs_v) =~= spec_candidates(
                lv,
                obs_v,
            ));
        }
        for i in 0..n
            invariant
                n == listens.len(),
                lv == addr_views(listens@),
                obs_v == obs@,
                addr_views(out@) + spec_candidates(lv.skip(i as int), obs_v) == spec_candidates(
                    lv,
                    obs_v,
                ),
        {
            let ghost pre = lv.skip(i as int);
            let ghost out0 = out@;
            proof {
                assert(pre.len() > 0);
                assert(pre[0] == listens@[i as int]@);
                assert(pre.drop_first() =~= lv.skip(i + 1));
            }
            match socket_port(&listens[i]) {
                Option::Some(p) => {
                    out.push(with_port(&obs, p));
                    proof {
                        assert(addr_views(out@) =~= addr_views(out0).push(
                            spec_with_port(obs_v, p),
                        ));
                    }
                },
                Option::None => {},
            }
            proof {
                assert(addr_views(out@) + spec_candidates(lv.skip(i + 1), obs_v)
                    =~= spec_candidates(lv, obs_v));
            }
        }
        let ghost out1 = out@;
        out.push(obs);
        proof {
            assert(lv.skip(n as int) =~= Seq::<AddrView>::empty());
            assert(spec_candidates(lv.skip(n as int), obs_v) =~= seq![obs_v]);
            assert(addr_views(out@) =~= addr_views(out1).push(obs_v));
            assert(addr_views(out@) =~= spec_candidates(lv, obs_v));
        }
        ObservedOutcome::Candidates { addrs: out }
    }

    /// The misbehavior policy: zero tolerance, every detected misbehavior
    /// disconnects the session. The policy is a replaceable seam; this is
    /// the shipped default.
    pub fn misbehave(&self, _kind: Misbehavior) -> (r: MisbehaveResult)
        ensures
            r == MisbehaveResult::Disconnect,
    {
        MisbehaveResult::Disconnect
    }
}

/// The verdict of the duplicate check, as a function of whether a payload
/// was already received on the session.
pub open spec fn spec_duplicate_verdict(has_received: bool) -> MisbehaveResult {
    if has_received {
        MisbehaveResult::Disconnect
    } else {
        MisbehaveResult::Continue
    }
}

/// The session table with one entry marked as having received its payload.
pub open spec fn spec_mark_received(t: Seq<RemoteView>, i: int) -> Seq<RemoteView> {
    t.update(
        i,
        RemoteView {
            session: t[i].session,
            connected_at: t[i].connected_at,
            timeout: t[i].timeout,
            has_received: true,
        },
    )
}

/// A session that has not received its payload within its timeout.
pub open spec fn spec_expired(r: RemoteView, now_ms: u64) -> bool {
    !r.has_received && r.connected_at + r.timeout <= now_ms
}

/// The sessions the timeout sweep flags, in table order.
pub open spec fn spec_timeout_ids(t: Seq<RemoteView>, now_ms: u64) -> Seq<u64>
    decreases t.len(),
{
    if t.len() == 0 {
        Seq::empty()
    } else if spec_expired(t[0], now_ms) {
        seq![t[0].session.id] + spec_timeout_ids(t.drop_first(), now_ms)
    } else {
        spec_timeout_ids(t.drop_first(), now_ms)
    }
}

/// The timeout sweep flags a session exactly when it still awaits its first
/// payload past its timeout: a session whose `connected_at + timeout` has
/// elapsed by `now_ms` is in the sweep's list, and one that has received
/// its payload, or is within its timeout, is not.
pub proof fn lemma_timeout_membership(t: Seq<RemoteView>, now_ms: u64)
    ensures
        forall|id: u64| #[trigger] spec_timeout_ids(t, now_ms).contains(id) <==> (exists|i: int|
            0 <= i < t.len() && #[trigger] t[i].session.id == id && spec_expired(t[i], now_ms)),
    decreases t.len(),
{
    if t.len() > 0 {
        lemma_timeout_membership(t.drop_first(), now_ms);
        let out = spec_timeout_ids(t, now_ms);
        let rest = spec_timeout_ids(t.drop_first(), now_ms);
        assert forall|id: u64| (exists|i: int|
            0 <= i < t.len() && #[trigger] t[i].session.id == id && spec_expired(t[i], now_ms))
            implies #[trigger] out.contains(id) by {
            let i = choose|i: int|
                0 <= i < t.len() && t[i].session.id == id && spec_expired(t[i], now_ms);
            if i == 0 {
                assert(out[0] == id);
            } else {
                assert(t.drop_first()[i - 1].session.id == id);
                assert(rest.contains(id));
                let j = choose|j: int| 0 <= j < rest.len() && rest[j] == id;
                if spec_expired(t[0], now_ms) {
                    assert(out[j + 1] == id);
                } else {
                    assert(out[j] == id);
                }
            }
        }
        assert forall|id: u64| #[trigger] out.contains(id) implies (exists|i: int|
            0 <= i < t.len() && #[trigger] t[i].session.id == id && spec_expired(
                t[i],
                now_ms,
            )) by {
            let j = choose|j: int| 0 <= j < out.len() && out[j] == id;
            if spec_expired(t[0], now_ms) && j == 0 {
                assert(t[0].session.id == id && spec_expired(t[0], now_ms));
            } else {
                let j0 = if spec_expired(t[0], now_ms) {
                    j - 1
                } else {
                    j
                };
                assert(rest[j0] == id);
                assert(rest.contains(id));
                let i = choose|i: int|
                    0 <= i < t.drop_first().len() && t.drop_first()[i].session.id == id
                        && spec_expired(t.drop_first()[i], now_ms);
                assert(t[i + 1].session.id == id && spec_expired(t[i + 1], now_ms));
            }
        }
    }
}

/// Receiving a payload marks the session, so the same payload sent twice on
/// one session passes the duplicate check the first time and trips it the
/// second time.
pub proof fn lemma_second_receipt_is_duplicate(t: Seq<RemoteView>, i: int)
    requires
        0 <= i < t.len(),
        !t[i].has_received,
    ensures
        spec_duplicate_verdict(t[i].has_received) == MisbehaveResult::Continue,
        spec_duplicate_verdict(spec_mark_received(t, i)[i].has_received)
            == MisbehaveResult::Disconnect,
{
}

/// The timer registration the protocol asks for at startup.
#[derive(Clone, Copy, Debug, PartialEq, Eq, Structural)]
pub struct NotifyRequest {
    /// Sweep interval in milliseconds.
    pub interval_ms: u64,
    /// Token under which the sweep fires.
    pub token: u64,
}

/// What a session's `connected` event produced: the registry bookkeeping
/// and the identify message to send on the high-priority queue.
#[derive(Debug)]
pub struct ConnectedOutcome {
    /// Registry bookkeeping for the new session.
    pub register: RegisterOutcome,
    /// The encoded identify payload to send to the peer.
    pub message: Vec<u8>,
}

/// What a session's `received` event produced. Every check runs and its
/// outcome is recorded here even when an earlier check already asked for a
/// disconnect; the transport loop applies the side effects of every check
/// and disconnects at the end.
#[derive(Debug)]
pub enum ReceivedOutcome {
    /// The payload did not decode.
    InvalidData {
        /// The policy's verdict on the invalid data.
        verdict: MisbehaveResult,
    },
    /// The payload decoded; all four checks ran in order.
    Checked {
        /// Verdict of the duplicate check.
        duplicate: MisbehaveResult,
        /// Decision of identity verification.
        identity: VerifyOutcome,
        /// Decision of listen-address processing.
        listens: ListensOutcome,
        /// Decision of observed-address processing.
        observed: ObservedOutcome,
    },
}

impl ReceivedOutcome {
    /// How many checks asked for a disconnect. The transport's disconnect
    /// is idempotent, so one request per offending check is issued.
    pub fn disconnect_requests(&self) -> (n: usize)
        ensures
            (self matches ReceivedOutcome::InvalidData { verdict } ==> n == (if verdict
                == MisbehaveResult::Disconnect {
                1int
            } else {
                0int
            })),
            (self matches ReceivedOutcome::Checked { duplicate, identity, listens, observed }
                ==> n == (if duplicate == MisbehaveResult::Disconnect {
                1int
            } else {
                0int
            }) + (if (identity@ == VerifyView::BanDifferentNetwork || identity@
                == VerifyView::InvalidFlags || identity@ == VerifyView::FlagsMismatch) {
                1int
            } else {
                0int
            }) + (if (listens@ matches ListensView::TooMany { .. }) {
                1int
            } else {
                0int
            })),
    {
        let mut n: usize = 0;
        match self {
            ReceivedOutcome::InvalidData { verdict } => {
                if verdict.is_disconnect() {
                    n = 1;
                }
            },
            ReceivedOutcome::Checked { duplicate, identity, listens, observed: _ } => {
                if duplicate.is_disconnect() {
                    n = n + 1;
                }
                if identity.verdict().is_disconnect() {
                    n = n + 1;
                }
                if listens.verdict().is_disconnect() {
                    n = n + 1;
                }
            },
        }
        n
    }
}

/// The identify handshake, one instance per running protocol, holding one
/// state record per live session.
#[derive(Debug)]
pub struct IdentifyProtocol {
    /// The callback holding the local identity and the policy decisions.
    pub callback: IdentifyCallback,
    /// One record per live session. Exactly one entry exists per open
    /// session id.
    pub remote_infos: Vec<RemoteInfo>,
    /// Whether only globally reachable addresses are advertised and
    /// accepted.
    pub global_ip_only: bool,
}

impl IdentifyProtocol {
    /// The session table as a mathematical sequence.
    pub open spec fn table(self) -> Seq<RemoteView> {
        self.remote_infos@.map_values(|r: RemoteInfo| r@)
    }

    /// A record exists for the session id.
    pub open spec fn spec_has(self, id: u64) -> bool {
        exists|i: int| 0 <= i < self.table().len() && self.table()[i].session.id == id
    }

    /// The index of the session's record.
    pub open spec fn spec_index_of(self, id: u64) -> int {
        choose|i: int| 0 <= i < self.table().len() && self.table()[i].session.id == id
    }

    /// Well-formedness: session ids are unique, and the local identity fits
    /// the wire format.
    pub open spec fn wf(self) -> bool {
        &&& (forall|p: int, q: int|
            0 <= p < q < self.table().len() ==> #[trigger] self.table()[p].session.id
                != #[trigger] self.table()[q].session.id)
        &&& wf_bytes(self.callback.identify.name@)
        &&& wf_bytes(self.callback.identify.client_version@)
    }

    /// A protocol instance for the given callback, with no live sessions,
    /// in global-IP-only mode.
    pub fn new(callback: IdentifyCallback) -> (r: IdentifyProtocol)
        requires
            wf_bytes(callback.identify.name@),
            wf_bytes(callback.identify.client_version@),
        ensures
            r.callback@ == callback@,
            r.table() == Seq::<RemoteView>::empty(),
            r.global_ip_only == true,
            r.wf(),
    {
        let r = IdentifyProtocol { callback, remote_infos: Vec::new(), global_ip_only: true };
        proof {
            assert(r.table() =~= Seq::<RemoteView>::empty());
        }
        r
    }

    /// The same instance with the reachability mode replaced.
    pub fn global_ip_only(self, only: bool) -> (r: Self)
        ensures
            r.callback@ == self.callback@,
            r.table() == self.table(),
            r.global_ip_only == only,
            self.wf() ==> r.wf(),
    {
        IdentifyProtocol {
            callback: self.callback,
            remote_infos: self.remote_infos,
            global_ip_only: only,
        }
    }

    /// Whether a record exists for the session id.
    pub fn has_session(&self, session_id: u64) -> (r: bool)
        ensures
            r == self.spec_has(session_id),
    {
        match self.find(session_id) {
            Option::Some(_) => true,
            Option::None => false,
        }
    }

    /// Finds the index of the session's record.
    fn find(&self, session_id: u64) -> (r: Option<usize>)
        ensures
            match r {
                Option::Some(i) => i < self.remote_infos@.len() && self.table()[i as int]
                    .session.id == session_id && self.spec_has(session_id) && (self.wf()
                    ==> i as int == self.spec_index_of(session_id)),
                Option::None => !self.spec_has(session_id),
            },
{
        let n = self.remote_infos.len();
        for i in 0..n
            invariant
                n == self.remote_infos.len(),
                forall|k: int| 0 <= k < i ==> #[trigger] self.table()[k].session.id
                    != session_id,
        {
            if self.remote_infos[i].session.id == session_id {
                proof {
                    assert(self.table()[i as int].session.id == session_id);
                    if self.wf() {
                        let j = self.spec_index_of(session_id);
                        assert(0 <= j < self.table().len() && self.table()[j].session.id
                            == session_id);
                        if j < i as int {
                            assert(self.table()[j].session.id != self.table()[i as int]
                                .session.id);
                        }
                        if j > i as int {
                            assert(self.table()[i as int].session.id != self.table()[j]
                                .session.id);
                        }
                    }
                }
                return Option::Some(i);
            }
        }
        proof {
            if self.spec_has(session_id) {
                let j = self.spec_index_of(session_id);
                assert(self.table()[j].session.id == session_id);
            }
        }
        Option::None
    }

    /// The timer registration requested at protocol startup: a sweep every
    /// second under a fixed token.
    pub fn init(&self) -> (r: NotifyRequest)
        ensures
            r.interval_ms == CHECK_TIMEOUT_INTERVAL_MS,
            r.token == CHECK_TIMEOUT_TOKEN,
    {
        NotifyRequest { interval_ms: CHECK_TIMEOUT_INTERVAL_MS, token: CHECK_TIMEOUT_TOKEN }
    }

    /// Handles a session opening: records it with the default handshake
    /// timeout, asks for the registry bookkeeping, and builds the identify
    /// payload to send — the local identity, the reachable advertised
    /// addresses capped at ten, and the address this session is observed
    /// arriving from.
    pub fn connected(
        &mut self,
        session: SessionInfo,
        version: &String,
        now_ms: u64,
        public_addrs: Vec<NetAddress>,
    ) -> (r: ConnectedOutcome)
        requires
            old(self).wf(),
            !old(self).spec_has(session.id),
            wf_addr(session.address@),
            forall|i: int| 0 <= i < public_addrs@.len() ==> wf_addr(
                #[trigger] addr_views(public_addrs@)[i],
            ),
        ensures
            final(self).wf(),
            final(self).spec_has(session.id),
            final(self).callback@ == old(self).callback@,
            final(self).global_ip_only == old(self).global_ip_only,
            final(self).table() == old(self).table().push(
                RemoteView {
                    session: session@,
                    connected_at: now_ms,
                    timeout: DEFAULT_TIMEOUT_MS,
                    has_received: false,
                },
            ),
            r.register.session == session.id,
            r.register.version@ == version@,
            session.ty == SessionType::Outbound ==> (r.register.add_outbound_addr
                matches Option::Some(a) && a@ == session.address@),
            session.ty == SessionType::Inbound ==> r.register.add_outbound_addr is None,
            r.message@ == enc_payload(
                PayloadView {
                    name: old(self).callback@.identify.name,
                    flags: old(self).callback@.identify.flags.0,
                    client_version: old(self).callback@.identify.client_version,
                    listen_addrs: spec_cap10(
                        spec_filter_reachable(
                            spec_cap10(addr_views(public_addrs@)),
                            old(self).global_ip_only,
                        ),
                    ),
                    observed_addr: session.address@,
                },
            ),
    {
        let register = self.callback.register(&session, version);
        let ghost pv = addr_views(public_addrs@);
        let capped = self.callback.listen_addrs(public_addrs);
        let mut listen = filter_reachable(&capped, self.global_ip_only);
        if listen.len() > MAX_ADDRS {
            let ghost l0 = addr_views(listen@);
            listen.truncate(MAX_ADDRS);
            proof {
                assert(addr_views(listen@) =~= spec_cap10(l0));
            }
        }
        proof {
            let g = self.global_ip_only;
            let cv = spec_cap10(pv);
            crate::address::lemma_filter_reachable_membership(cv, g);
            let lw = addr_views(listen@);
            assert forall|i: int| 0 <= i < lw.len() implies wf_addr(#[trigger] lw[i]) by {
                let v = lw[i];
                assert(spec_filter_reachable(cv, g).contains(v));
                assert(cv.contains(v));
                let j = choose|j: int| 0 <= j < cv.len() && cv[j] == v;
                assert(pv[j] == v);
            }
        }
        let payload = IdentifyPayload {
            name: clone_bytes(&self.callback.identify.name),
            flags: self.callback.identify.flags.0,
            client_version: clone_bytes(&self.callback.identify.client_version),
            listen_addrs: listen,
            observed_addr: session.address.clone(),
        };
        let message = payload.encode();
        let ghost t0 = self.table();
        let info = RemoteInfo::new(session, now_ms, DEFAULT_TIMEOUT_MS);
        let ghost iv = info@;
        self.remote_infos.push(info);
        proof {
            assert(self.table() =~= t0.push(iv));
            assert forall|p: int, q: int| 0 <= p < q < self.table().len()
                implies #[trigger] self.table()[p].session.id != #[trigger] self.table()[q]
                .session.id by {
                if q == self.table().len() - 1 {
                    if t0[p].session.id == iv.session.id {
                        assert(old(self).spec_has(iv.session.id));
                    }
                }
            }
            assert(self.table()[self.table().len() - 1].session.id == iv.session.id);
        }
        ConnectedOutcome { register, message }
    }

    /// Handles a session closing: discards its record and asks for the
    /// closing bookkeeping.
    pub fn disconnected(&mut self, session_id: u64, addr_banned: bool) -> (r: Option<NetAddress>)
        requires
            old(self).wf(),
            old(self).spec_has(session_id),
        ensures
            final(self).wf(),
            final(self).callback@ == old(self).callback@,
            final(self).global_ip_only == old(self).global_ip_only,
            final(self).table() == old(self).table().remove(
                old(self).spec_index_of(session_id),
            ),
            ({
                let s = old(self).table()[old(self).spec_index_of(session_id)].session;
                &&& ((r is Some) <==> (s.ty == SessionType::Outbound && !addr_banned))
                &&& (r matches Option::Some(a) ==> a@ == s.address)
            }),
    {
        let i = match self.find(session_id) {
            Option::Some(i) => i,
            Option::None => {
                proof {
                    assert(false);
                }
                0
            },
        };
        let ghost t0 = self.table();
        let ghost idx = i as int;
        let info = self.remote_infos.remove(i);
        let r = self.callback.unregister(&info.session, addr_banned);
        proof {
            assert(self.table() =~= t0.remove(idx));
            assert forall|p: int, q: int| 0 <= p < q < self.table().len()
                implies #[trigger] self.table()[p].session.id != #[trigger] self.table()[q]
                .session.id by {
                let p0 = if p < idx {
                    p
                } else {
                    p + 1
                };
                let q0 = if q < idx {
                    q
                } else {
                    q + 1
                };
                assert(self.table()[p] == t0[p0] && self.table()[q] == t0[q0]);
            }
        }
        r
    }

    /// The duplicate check: marks the session as having received its
    /// payload, and flags a session that already had.
    pub fn check_duplicate(&mut self, session_id: u64) -> (r: MisbehaveResult)
        requires
            old(self).wf(),
            old(self).spec_has(session_id),
        ensures
            final(self).wf(),
            final(self).callback@ == old(self).callback@,
            final(self).global_ip_only == old(self).global_ip_only,
            r == spec_duplicate_verdict(
                old(self).table()[old(self).spec_index_of(session_id)].has_received,
            ),
            final(self).table() == spec_mark_received(
                old(self).table(),
                old(self).spec_index_of(session_id),
            ),
    {
        let i = match self.find(session_id) {
            Option::Some(i) => i,
            Option::None => {
                proof {
                    assert(false);
                }
                0
            },
        };
        let ghost t0 = self.table();
        let ghost idx = i as int;
        let mut info = self.remote_infos.remove(i);
        let verdict = if info.has_received {
            self.callback.misbehave(Misbehavior::DuplicateReceived)
        } else {
            MisbehaveResult::Continue
        };
        info.has_received = true;
        self.remote_infos.insert(i, info);
        proof {
            assert(self.remote_infos@ =~= old(self).remote_infos@.update(idx, self
                .remote_infos@[idx]));
            assert(self.table() =~= spec_mark_received(t0, idx));
            assert forall|p: int, q: int| 0 <= p < q < self.table().len()
                implies #[trigger] self.table()[p].session.id != #[trigger] self.table()[q]
                .session.id by {
                assert(self.table()[p].session.id == t0[p].session.id);
                assert(self.table()[q].session.id == t0[q].session.id);
            }
        }
        verdict
    }

    /// Listen-address processing: a list over the cap is flagged; otherwise
    /// the reachable addresses are kept, to be recorded for the session and
    /// persisted as discovered candidates.
    pub fn process_listens(&self, session_id: u64, listens: Vec<NetAddress>) -> (r:
        ListensOutcome)
        requires
            self.wf(),
            self.spec_has(session_id),
        ensures
            r@ == spec_listens_outcome(addr_views(listens@), self.global_ip_only),
    {
        if listens.len() > MAX_ADDRS {
            let _verdict = self.callback.misbehave(
                Misbehavior::TooManyAddresses(listens.len()),
            );
            ListensOutcome::TooMany { count: listens.len() }
        } else {
            ListensOutcome::Accepted {
                addrs: filter_reachable(&listens, self.global_ip_only),
            }
        }
    }

    /// Observed-address processing: inbound sessions and unreachable
    /// addresses teach nothing; otherwise candidate self-addresses are
    /// derived for the discovery pool. Never asks for a disconnect.
    pub fn process_observed(
        &self,
        session_id: u64,
        observed: NetAddress,
        public_addrs: &Vec<NetAddress>,
    ) -> (r: ObservedOutcome)
        requires
            self.wf(),
            self.spec_has(session_id),
        ensures
            r@ == spec_observed_outcome(
                observed@,
                self.table()[self.spec_index_of(session_id)].session.ty,
                self.global_ip_only,
                addr_views(public_addrs@),
                self.callback@.local_peer_id,
            ),
    {
        let i = match self.find(session_id) {
            Option::Some(i) => i,
            Option::None => {
                proof {
                    assert(false);
                }
                0
            },
        };
        let ty = self.remote_infos[i].session.ty;
        proof {
            assert(self.table()[i as int].session.ty == ty);
        }
        if !keep_addr(&observed, self.global_ip_only) {
            return ObservedOutcome::Skipped;
        }
        self.callback.add_observed_addr(observed, ty, public_addrs)
    }

    /// Handles a received frame: decodes it, and on success runs the
    /// duplicate check, identity verification, listen-address processing
    /// and observed-address processing, in that order, recording every
    /// check's outcome; a frame that does not decode is invalid data. The
    /// caller answers the feeler query and supplies the node's public
    /// addresses.
    pub fn received(
        &mut self,
        session_id: u64,
        data: &[u8],
        is_feeler: bool,
        public_addrs: &Vec<NetAddress>,
    ) -> (r: ReceivedOutcome)
        requires
            old(self).wf(),
            old(self).spec_has(session_id),
        ensures
            final(self).wf(),
            final(self).spec_has(session_id),
            final(self).callback@ == old(self).callback@,
            final(self).global_ip_only == old(self).global_ip_only,
            (parse_payload(data@) is None ==> final(self).table() == old(self).table() && (
            r matches ReceivedOutcome::InvalidData { verdict } && verdict
                == MisbehaveResult::Disconnect)),
            (parse_payload(data@) matches Option::Some(p) ==> ({
                let idx = old(self).spec_index_of(session_id);
                let t0 = old(self).table();
                &&& final(self).table() == spec_mark_received(t0, idx)
                &&& (r matches ReceivedOutcome::Checked { duplicate, identity, listens, observed }
                    && duplicate == spec_duplicate_verdict(t0[idx].has_received) && identity@
                    == spec_verify_outcome(
                    old(self).callback@.identify,
                    t0[idx].session.ty,
                    is_feeler,
                    p.name,
                    p.flags,
                    p.client_version,
                ) && listens@ == spec_listens_outcome(
                    p.listen_addrs,
                    old(self).global_ip_only,
                ) && observed@ == spec_observed_outcome(
                    p.observed_addr,
                    t0[idx].session.ty,
                    old(self).global_ip_only,
                    addr_views(public_addrs@),
                    old(self).callback@.local_peer_id,
                ))
            })),
    {
        match IdentifyPayload::decode(data) {
            Option::None => {
                let verdict = self.callback.misbehave(Misbehavior::InvalidData);
                ReceivedOutcome::InvalidData { verdict }
            },
            Option::Some(payload) => {
                let i = match self.find(session_id) {
                    Option::Some(i) => i,
                    Option::None => {
                        proof {
                            assert(false);
                        }
                        0
                    },
                };
                let ty = self.remote_infos[i].session.ty;
                let ghost t0 = self.table();
                let ghost idx = i as int;
                let duplicate = self.check_duplicate(session_id);
                proof {
                    assert(self.table() == spec_mark_received(t0, idx));
                    assert(self.table()[idx].session == t0[idx].session);
                    assert(self.spec_has(session_id));
                    let j = self.spec_index_of(session_id);
                    assert(0 <= j < self.table().len() && self.table()[j].session.id
                        == session_id);
                    assert(self.table()[j].session.id == t0[j].session.id);
                    if j != idx {
                        assert(t0[j].session.id != t0[idx].session.id);
                    }
                    assert(self.spec_index_of(session_id) == idx);
                }
                let identity = self.callback.received_identify(
                    ty,
                    is_feeler,
                    &payload.name,
                    payload.flags,
                    &payload.client_version,
                );
                let listens = self.process_listens(session_id, payload.listen_addrs);
                let observed = self.process_observed(
                    session_id,
                    payload.observed_addr,
                    public_addrs,
                );
                ReceivedOutcome::Checked { duplicate, identity, listens, observed }
            },
        }
    }

    /// The periodic timeout sweep: flags every session that is still
    /// waiting for its payload past its timeout. The flagged sessions are
    /// the ones the policy disconnects.
    pub fn notify(&self, now_ms: u64) -> (r: Vec<u64>)
        ensures
            r@ == spec_timeout_ids(self.table(), now_ms),
    {
        let mut out: Vec<u64> = Vec::new();
        let n = self.remote_infos.len();
        let ghost t = self.table();
        proof {
            assert(t.skip(0) =~= t);
            assert(out@ + spec_timeout_ids(t.skip(0), now_ms) =~= spec_timeout_ids(t, now_ms));
        }
        for i in 0..n
            invariant
                n == self.remote_infos.len(),
                t == self.table(),
                out@ + spec_timeout_ids(t.skip(i as int), now_ms) == spec_timeout_ids(
                    t,
                    now_ms,
                ),
        {
            let ghost pre = t.skip(i as int);
            proof {
                assert(pre.len() > 0);
                assert(pre[0] == t[i as int]);
                assert(pre.drop_first() =~= t.skip(i + 1));
            }
            let info = &self.remote_infos[i];
            if !info.has_received && now_ms >= info.connected_at && now_ms - info.connected_at
                >= info.timeout {
                let verdict = self.callback.misbehave(Misbehavior::Timeout);
                if verdict.is_disconnect() {
                    out.push(info.session.id);
                }
            }
            proof {
                assert(out@ + spec_timeout_ids(t.skip(i + 1), now_ms) =~= spec_timeout_ids(
                    t,
                    now_ms,
                ));
            }
        }
        proof {
            assert(t.skip(n as int) =~= Seq::<RemoteView>::empty());
            assert(out@ =~= spec_timeout_ids(t, now_ms));
        }
        out
    }
}

/// Copies a list of addresses.
pub fn clone_addrs(addrs: &Vec<NetAddress>) -> (r: Vec<NetAddress>)
    ensures
        addr_views(r@) == addr_views(addrs@),
{
    let mut r: Vec<NetAddress> = Vec::new();
    let n = addrs.len();
    for i in 0..n
        invariant
            n == addrs.len(),
            addr_views(r@) == addr_views(addrs@).take(i as int),
    {
        let ghost r0 = r@;
        r.push(addrs[i].clone());
        proof {
            assert(addr_views(r@) =~= addr_views(r0).push(addrs@[i as int]@));
            assert(addr_views(r@) =~= addr_views(addrs@).take(i + 1));
        }
    }
    proof {
        assert(addr_views(addrs@).take(n as int) =~= addr_views(addrs@));
    }
    r
}

} // verus!
