//! Network addresses as the handshake reads them.
//!
//! The handshake only ever inspects three things about an address: whether it
//! resolves to an IPv4 socket, the socket's host and port, and whether the
//! address carries a peer-identity suffix. Addresses over other transport
//! stacks are carried opaquely; they never resolve to a socket and are
//! dropped by every reachability filter, exactly as the handshake treats
//! addresses it cannot interpret.

use vstd::prelude::*;
use vstd::slice::slice_to_vec;

verus! {

/// A multi-segment network address, reduced to what the handshake reads.
#[derive(Debug)]
pub enum NetAddress {
    /// An ip4/tcp address, optionally carrying a peer-identity segment.
    Socket {
        /// First octet of the IPv4 host.
        a: u8,
        /// Second octet.
        b: u8,
        /// Third octet.
        c: u8,
        /// Fourth octet.
        d: u8,
        /// TCP port.
        port: u16,
        /// Peer-identity suffix, when present.
        peer: Option<Vec<u8>>,
    },
    /// Any other transport stack, carried opaquely.
    Opaque {
        /// The raw segments of the address.
        data: Vec<u8>,
    },
}

/// The mathematical value of a [`NetAddress`].
pub enum AddrView {
    /// An ip4/tcp address.
    Socket {
        /// First octet of the IPv4 host.
        a: u8,
        /// Second octet.
        b: u8,
        /// Third octet.
        c: u8,
        /// Fourth octet.
        d: u8,
        /// TCP port.
        port: u16,
        /// Peer-identity suffix, when present.
        peer: Option<Seq<u8>>,
    },
    /// Any other transport stack.
    Opaque {
        /// The raw segments of the address.
        data: Seq<u8>,
    },
}

impl View for NetAddress {
    type V = AddrView;

    open spec fn view(&self) -> AddrView {
        match self {
            NetAddress::Socket { a, b, c, d, port, peer } => AddrView::Socket {
                a: *a,
                b: *b,
                c: *c,
                d: *d,
                port: *port,
                peer: match peer {
                    Option::Some(p) => Option::Some(p@),
                    Option::None => Option::None,
                },
            },
            NetAddress::Opaque { data } => AddrView::Opaque { data: data@ },
        }
    }
}

/// Copies a byte vector.
pub fn clone_bytes(v: &Vec<u8>) -> (r: Vec<u8>)
    ensures
        r@ == v@,
{
    slice_to_vec(v.as_slice())
}

impl Clone for NetAddress {
    /// Copying an address keeps its value.
    fn clone(&self) -> (r: Self)
        ensures
            r@ == self@,
    {
        match self {
            NetAddress::Socket { a, b, c, d, port, peer } => NetAddress::Socket {
                a: *a,
                b: *b,
                c: *c,
                d: *d,
                port: *port,
                peer: match peer {
                    Option::Some(p) => Option::Some(clone_bytes(p)),
                    Option::None => Option::None,
                },
            },
            NetAddress::Opaque { data } => NetAddress::Opaque { data: clone_bytes(data) },
        }
    }
}

/// The views of a list of addresses.
pub open spec fn addr_views(s: Seq<NetAddress>) -> Seq<AddrView> {
    s.map_values(|x: NetAddress| x@)
}

/// An IPv4 host is publicly reachable: it lies in none of the unspecified,
/// loopback, private, link-local, documentation or broadcast ranges.
pub open spec fn spec_ip4_reachable(a: u8, b: u8, c: u8, d: u8) -> bool {
    !((a == 0 && b == 0 && c == 0 && d == 0)  // unspecified
    || a == 127  // loopback
    || a == 10  // private
    || (a == 172 && 16 <= b && b < 32)  // private
    || (a == 192 && b == 168)  // private
    || (a == 169 && b == 254)  // link local
    || (a == 192 && b == 0 && c == 2)  // documentation
    || (a == 198 && b == 51 && c == 100)  // documentation
    || (a == 203 && b == 0 && c == 113)  // documentation
    || (a == 255 && b == 255 && c == 255 && d == 255)  // broadcast
    )
}

/// Whether an IPv4 host is publicly reachable.
pub fn ip4_reachable(a: u8, b: u8, c: u8, d: u8) -> (r: bool)
    ensures
        r == spec_ip4_reachable(a, b, c, d),
{
    !((a == 0 && b == 0 && c == 0 && d == 0) || a == 127 || a == 10 || (a == 172 && 16 <= b
        && b < 32) || (a == 192 && b == 168) || (a == 169 && b == 254) || (a == 192 && b == 0
        && c == 2) || (a == 198 && b == 51 && c == 100) || (a == 203 && b == 0 && c == 113)
        || (a == 255 && b == 255 && c == 255 && d == 255))
}

/// The address resolves to a socket whose host is publicly reachable.
pub open spec fn spec_addr_reachable(v: AddrView) -> bool {
    match v {
        AddrView::Socket { a, b, c, d, .. } => spec_ip4_reachable(a, b, c, d),
        AddrView::Opaque { .. } => false,
    }
}

/// Whether the address resolves to a socket whose host is publicly reachable.
pub fn addr_reachable(addr: &NetAddress) -> (r: bool)
    ensures
        r == spec_addr_reachable(addr@),
{
    match addr {
        NetAddress::Socket { a, b, c, d, .. } => ip4_reachable(*a, *b, *c, *d),
        NetAddress::Opaque { .. } => false,
    }
}

/// The address passes the reachability filter. An address that resolves to no
/// socket is always dropped; a socket address is kept unless global-IP-only
/// mode is on and its host is not publicly reachable.
pub open spec fn spec_keep_addr(v: AddrView, global_ip_only: bool) -> bool {
    match v {
        AddrView::Socket { a, b, c, d, .. } => !global_ip_only || spec_ip4_reachable(a, b, c, d),
        AddrView::Opaque { .. } => false,
    }
}

/// Whether the address passes the reachability filter.
pub fn keep_addr(addr: &NetAddress, global_ip_only: bool) -> (r: bool)
    ensures
        r == spec_keep_addr(addr@, global_ip_only),
{
    match addr {
        NetAddress::Socket { a, b, c, d, .. } => !global_ip_only || ip4_reachable(
            *a,
            *b,
            *c,
            *d,
        ),
        NetAddress::Opaque { .. } => false,
    }
}

/// The subsequence of `s` that passes the reachability filter.
pub open spec fn spec_filter_reachable(s: Seq<AddrView>, global_ip_only: bool) -> Seq<AddrView>
    decreases s.len(),
{
    if s.len() == 0 {
        Seq::empty()
    } else if spec_keep_addr(s[0], global_ip_only) {
        seq![s[0]] + spec_filter_reachable(s.drop_first(), global_ip_only)
    } else {
        spec_filter_reachable(s.drop_first(), global_ip_only)
    }
}

/// An address appears in the filtered list exactly when it appears in the
/// input and passes the filter: private, loopback, link-local and
/// non-socket addresses are excluded, public addresses are retained.
pub proof fn lemma_filter_reachable_membership(s: Seq<AddrView>, global_ip_only: bool)
    ensures
        forall|v: AddrView| #[trigger] spec_filter_reachable(s, global_ip_only).contains(v)
            <==> (s.contains(v) && spec_keep_addr(v, global_ip_only)),
    decreases s.len(),
{
    if s.len() > 0 {
        lemma_filter_reachable_membership(s.drop_first(), global_ip_only);
        assert forall|v: AddrView| s.contains(v) && spec_keep_addr(v, global_ip_only)
            implies #[trigger] spec_filter_reachable(s, global_ip_only).contains(v) by {
            let i = choose|i: int| 0 <= i < s.len() && s[i] == v;
            if i == 0 {
                assert(spec_filter_reachable(s, global_ip_only)[0] == v);
            } else {
                assert(s.drop_first()[i - 1] == v);
                assert(s.drop_first().contains(v));
                let rest = spec_filter_reachable(s.drop_first(), global_ip_only);
                assert(rest.contains(v));
                let j = choose|j: int| 0 <= j < rest.len() && rest[j] == v;
                assert(0 <= j < rest.len() && rest[j] == v);
                if spec_keep_addr(s[0], global_ip_only) {
                    assert(spec_filter_reachable(s, global_ip_only) == seq![s[0]] + rest);
                    assert((seq![s[0]] + rest)[j + 1] == rest[j]);
                    assert(spec_filter_reachable(s, global_ip_only)[j + 1] == v);
                } else {
                    assert(spec_filter_reachable(s, global_ip_only) == rest);
                    assert(spec_filter_reachable(s, global_ip_only)[j] == v);
                }
            }
        }
        assert forall|v: AddrView| #[trigger] spec_filter_reachable(s, global_ip_only).contains(
            v,
        ) implies s.contains(v) && spec_keep_addr(v, global_ip_only) by {
            let out = spec_filter_reachable(s, global_ip_only);
            let j = choose|j: int| 0 <= j < out.len() && out[j] == v;
            if spec_keep_addr(s[0], global_ip_only) {
                if j == 0 {
                    assert(s[0] == v);
                } else {
                    assert(spec_filter_reachable(s.drop_first(), global_ip_only)[j - 1] == v);
                    assert(spec_filter_reachable(s.drop_first(), global_ip_only).contains(v));
                    let i = choose|i: int|
                        0 <= i < s.drop_first().len() && s.drop_first()[i] == v;
                    assert(s[i + 1] == v);
                }
            } else {
                assert(spec_filter_reachable(s.drop_first(), global_ip_only).contains(v));
                let i = choose|i: int| 0 <= i < s.drop_first().len() && s.drop_first()[i] == v;
                assert(s[i + 1] == v);
            }
        }
    }
}

/// Under global-IP-only mode, a loopback, private-range or link-local
/// address never survives the reachability filter — the same filter guards
/// both the outbound advertisement and the inbound acceptance of listen
/// addresses — while a publicly reachable address in the input is always
/// retained.
pub proof fn lemma_global_ip_only_filter(s: Seq<AddrView>, v: AddrView)
    ensures
        (v matches AddrView::Socket { a, b, c, d, .. } && (a == 127 || a == 10 || (a == 172 && 16
            <= b < 32) || (a == 192 && b == 168) || (a == 169 && b == 254))
            ==> !spec_filter_reachable(s, true).contains(v)),
        (v matches AddrView::Socket { a, b, c, d, .. } && s.contains(v) && spec_ip4_reachable(
            a,
            b,
            c,
            d,
        ) ==> spec_filter_reachable(s, true).contains(v)),
{
    lemma_filter_reachable_membership(s, true);
}

/// Filters a list of addresses down to the reachable ones, preserving order.
pub fn filter_reachable(addrs: &Vec<NetAddress>, global_ip_only: bool) -> (r: Vec<NetAddress>)
    ensures
        addr_views(r@) == spec_filter_reachable(addr_views(addrs@), global_ip_only),
{
    let mut r: Vec<NetAddress> = Vec::new();
    let n = addrs.len();
    proof {
        assert(addr_views(addrs@).skip(0) =~= addr_views(addrs@));
        assert(addr_views(r@) =~= Seq::<AddrView>::empty());
        assert(addr_views(r@) + spec_filter_reachable(addr_views(addrs@).skip(0), global_ip_only)
            =~= spec_filter_reachable(addr_views(addrs@), global_ip_only));
    }
    for i in 0..n
        invariant
            n == addrs.len(),
            addr_views(r@) + spec_filter_reachable(
                addr_views(addrs@).skip(i as int),
                global_ip_only,
            ) == spec_filter_reachable(addr_views(addrs@), global_ip_only),
    {
        let ghost pre = addr_views(addrs@).skip(i as int);
        let ghost r0 = r@;
        proof {
            assert(pre.len() > 0);
            assert(pre[0] == addrs@[i as int]@);
            assert(pre.drop_first() =~= addr_views(addrs@).skip(i + 1));
        }
        if keep_addr(&addrs[i], global_ip_only) {
            r.push(addrs[i].clone());
            proof {
                assert(addr_views(r@) =~= addr_views(r0).push(addrs@[i as int]@));
            }
        }
        proof {
            assert(addr_views(r@) + spec_filter_reachable(
                addr_views(addrs@).skip(i + 1),
                global_ip_only,
            ) =~= spec_filter_reachable(addr_views(addrs@), global_ip_only));
        }
    }
    proof {
        assert(addr_views(addrs@).skip(n as int) =~= Seq::<AddrView>::empty());
        assert(addr_views(r@) =~= spec_filter_reachable(addr_views(addrs@), global_ip_only));
    }
    r
}

/// The TCP port of the address, when it resolves to a socket.
pub open spec fn spec_socket_port(v: AddrView) -> Option<u16> {
    match v {
        AddrView::Socket { port, .. } => Option::Some(port),
        AddrView::Opaque { .. } => Option::None,
    }
}

/// The TCP port of the address, when it resolves to a socket.
pub fn socket_port(addr: &NetAddress) -> (r: Option<u16>)
    ensures
        r == spec_socket_port(addr@),
{
    match addr {
        NetAddress::Socket { port, .. } => Option::Some(*port),
        NetAddress::Opaque { .. } => Option::None,
    }
}

/// The address with its transport port replaced; an address without a socket
/// form is unchanged.
pub open spec fn spec_with_port(v: AddrView, port: u16) -> AddrView {
    match v {
        AddrView::Socket { a, b, c, d, peer, .. } => AddrView::Socket {
            a,
            b,
            c,
            d,
            port,
            peer,
        },
        AddrView::Opaque { data } => AddrView::Opaque { data },
    }
}

/// Builds a copy of the address with its transport port replaced.
pub fn with_port(addr: &NetAddress, port: u16) -> (r: NetAddress)
    ensures
        r@ == spec_with_port(addr@, port),
{
    match addr {
        NetAddress::Socket { a, b, c, d, peer, .. } => NetAddress::Socket {
            a: *a,
            b: *b,
            c: *c,
            d: *d,
            port,
            peer: match peer {
                Option::Some(p) => Option::Some(clone_bytes(p)),
                Option::None => Option::None,
            },
        },
        NetAddress::Opaque { data } => NetAddress::Opaque { data: clone_bytes(data) },
    }
}

/// The address with a peer-identity suffix guaranteed: when it carries none,
/// `peer_id` is appended.
pub open spec fn spec_with_peer(v: AddrView, peer_id: Seq<u8>) -> AddrView {
    match v {
        AddrView::Socket { a, b, c, d, port, peer } => AddrView::Socket {
            a,
            b,
            c,
            d,
            port,
            peer: match peer {
                Option::Some(p) => Option::Some(p),
                Option::None => Option::Some(peer_id),
            },
        },
        AddrView::Opaque { data } => AddrView::Opaque { data },
    }
}

/// Appends `peer_id` to the address when it carries no peer-identity suffix.
pub fn with_peer(addr: NetAddress, peer_id: &Vec<u8>) -> (r: NetAddress)
    ensures
        r@ == spec_with_peer(addr@, peer_id@),
{
    match addr {
        NetAddress::Socket { a, b, c, d, port, peer } => NetAddress::Socket {
            a,
            b,
            c,
            d,
            port,
            peer: match peer {
                Option::Some(p) => Option::Some(p),
                Option::None => Option::Some(clone_bytes(peer_id)),
            },
        },
        NetAddress::Opaque { data } => NetAddress::Opaque { data },
    }
}

} // verus!
