//! The identify wire payload and its binary codec.
//!
//! The payload is a length-prefixed binary structure with its fields in a
//! fixed order: network name, capability flags, client version, the listen
//! address list, and the observed address. All integers are little-endian;
//! byte strings and lists carry a two-byte length prefix. Decoding a
//! malformed buffer fails cleanly and feeds the invalid-data misbehavior
//! path; it never panics.

use vstd::bytes::{
    lemma_auto_spec_u16_to_from_le_bytes, lemma_auto_spec_u64_to_from_le_bytes,
    spec_u16_from_le_bytes, spec_u16_to_le_bytes, spec_u64_from_le_bytes, spec_u64_to_le_bytes,
    u16_from_le_bytes, u16_to_le_bytes, u64_from_le_bytes, u64_to_le_bytes,
};
use vstd::prelude::*;
use vstd::slice::{slice_subrange, slice_to_vec};

use crate::address::{addr_views, clone_bytes, AddrView, NetAddress};

verus! {

/// The identify payload exchanged right after a session opens.
#[derive(Debug)]
pub struct IdentifyPayload {
    /// Name of the network the sender belongs to, as raw bytes.
    pub name: Vec<u8>,
    /// Capability bitmask of the sender.
    pub flags: u64,
    /// Client version string of the sender, as raw bytes.
    pub client_version: Vec<u8>,
    /// Addresses the sender listens on.
    pub listen_addrs: Vec<NetAddress>,
    /// The address the sender observes this session arriving from.
    pub observed_addr: NetAddress,
}

/// The mathematical value of an [`IdentifyPayload`].
pub struct PayloadView {
    /// Network name bytes.
    pub name: Seq<u8>,
    /// Capability bitmask.
    pub flags: u64,
    /// Client version bytes.
    pub client_version: Seq<u8>,
    /// Listen addresses.
    pub listen_addrs: Seq<AddrView>,
    /// Observed address.
    pub observed_addr: AddrView,
}

impl View for IdentifyPayload {
    type V = PayloadView;

    open spec fn view(&self) -> PayloadView {
        PayloadView {
            name: self.name@,
            flags: self.flags,
            client_version: self.client_version@,
            listen_addrs: addr_views(self.listen_addrs@),
            observed_addr: self.observed_addr@,
        }
    }
}

/// A byte string fits behind its two-byte length prefix.
pub open spec fn wf_bytes(b: Seq<u8>) -> bool {
    b.len() < 65536
}

/// The address fits the wire format.
pub open spec fn wf_addr(v: AddrView) -> bool {
    match v {
        AddrView::Socket { peer, .. } => match peer {
            Option::Some(p) => wf_bytes(p),
            Option::None => true,
        },
        AddrView::Opaque { data } => wf_bytes(data),
    }
}

/// The payload fits the wire format: every variable-length field fits behind
/// its two-byte length prefix.
pub open spec fn wf_payload(p: PayloadView) -> bool {
    &&& wf_bytes(p.name)
    &&& wf_bytes(p.client_version)
    &&& p.listen_addrs.len() < 65536
    &&& (forall|i: int| 0 <= i < p.listen_addrs.len() ==> wf_addr(#[trigger] p.listen_addrs[i]))
    &&& wf_addr(p.observed_addr)
}

/// Whether the address fits the wire format.
pub fn addr_wf(addr: &NetAddress) -> (r: bool)
    ensures
        r == wf_addr(addr@),
{
    match addr {
        NetAddress::Socket { peer, .. } => match peer {
            Option::Some(p) => p.len() < 65536,
            Option::None => true,
        },
        NetAddress::Opaque { data } => data.len() < 65536,
    }
}

/// Encoding of a length-prefixed byte string.
pub open spec fn enc_bytes(b: Seq<u8>) -> Seq<u8> {
    spec_u16_to_le_bytes(b.len() as u16) + b
}

/// Encoding of an optional peer-identity suffix.
pub open spec fn enc_peer(p: Option<Seq<u8>>) -> Seq<u8> {
    match p {
        Option::None => seq![0u8],
        Option::Some(b) => seq![1u8] + enc_bytes(b),
    }
}

/// Encoding of one address.
pub open spec fn enc_addr(v: AddrView) -> Seq<u8> {
    match v {
        AddrView::Socket { a, b, c, d, port, peer } => seq![1u8, a, b, c, d]
            + spec_u16_to_le_bytes(port) + enc_peer(peer),
        AddrView::Opaque { data } => seq![0u8] + enc_bytes(data),
    }
}

/// Encoding of a list of addresses, in order, without a count prefix.
pub open spec fn enc_addr_list(s: Seq<AddrView>) -> Seq<u8>
    decreases s.len(),
{
    if s.len() == 0 {
        Seq::empty()
    } else {
        enc_addr(s[0]) + enc_addr_list(s.drop_first())
    }
}

/// Encoding of a whole payload.
pub open spec fn enc_payload(p: PayloadView) -> Seq<u8> {
    enc_bytes(p.name) + spec_u64_to_le_bytes(p.flags) + enc_bytes(p.client_version)
        + spec_u16_to_le_bytes(p.listen_addrs.len() as u16) + enc_addr_list(p.listen_addrs)
        + enc_addr(p.observed_addr)
}

/// Parses a little-endian 16-bit integer, returning it and the rest.
pub open spec fn parse_u16(d: Seq<u8>) -> Option<(u16, Seq<u8>)> {
    if d.len() < 2 {
        Option::None
    } else {
        Option::Some((spec_u16_from_le_bytes(d.take(2)), d.skip(2)))
    }
}

/// Parses a little-endian 64-bit integer, returning it and the rest.
pub open spec fn parse_u64(d: Seq<u8>) -> Option<(u64, Seq<u8>)> {
    if d.len() < 8 {
        Option::None
    } else {
        Option::Some((spec_u64_from_le_bytes(d.take(8)), d.skip(8)))
    }
}

/// Parses a length-prefixed byte string.
pub open spec fn parse_bytes(d: Seq<u8>) -> Option<(Seq<u8>, Seq<u8>)> {
    match parse_u16(d) {
        Option::None => Option::None,
        Option::Some((n, rest)) => if rest.len() < n {
            Option::None
        } else {
            Option::Some((rest.take(n as int), rest.skip(n as int)))
        },
    }
}

/// Parses an optional peer-identity suffix.
pub open spec fn parse_peer(d: Seq<u8>) -> Option<(Option<Seq<u8>>, Seq<u8>)> {
    if d.len() < 1 {
        Option::None
    } else if d[0] == 0 {
        Option::Some((Option::None, d.skip(1)))
    } else if d[0] == 1 {
        match parse_bytes(d.skip(1)) {
            Option::None => Option::None,
            Option::Some((b, rest)) => Option::Some((Option::Some(b), rest)),
        }
    } else {
        Option::None
    }
}

/// Parses one address.
pub open spec fn parse_addr(d: Seq<u8>) -> Option<(AddrView, Seq<u8>)> {
    if d.len() < 1 {
        Option::None
    } else if d[0] == 1 {
        if d.len() < 5 {
            Option::None
        } else {
            match parse_u16(d.skip(5)) {
                Option::None => Option::None,
                Option::Some((port, rest1)) => match parse_peer(rest1) {
                    Option::None => Option::None,
                    Option::Some((peer, rest2)) => Option::Some(
                        (
                            AddrView::Socket { a: d[1], b: d[2], c: d[3], d: d[4], port, peer },
                            rest2,
                        ),
                    ),
                },
            }
        }
    } else if d[0] == 0 {
        match parse_bytes(d.skip(1)) {
            Option::None => Option::None,
            Option::Some((data, rest)) => Option::Some((AddrView::Opaque { data }, rest)),
        }
    } else {
        Option::None
    }
}

/// Parses `n` consecutive addresses.
pub open spec fn parse_addr_list(d: Seq<u8>, n: nat) -> Option<(Seq<AddrView>, Seq<u8>)>
    decreases n,
{
    if n == 0 {
        Option::Some((Seq::empty(), d))
    } else {
        match parse_addr(d) {
            Option::None => Option::None,
            Option::Some((v, rest)) => match parse_addr_list(rest, (n - 1) as nat) {
                Option::None => Option::None,
                Option::Some((vs, rest2)) => Option::Some((seq![v] + vs, rest2)),
            },
        }
    }
}

/// Parses a whole payload. The buffer must be consumed exactly.
pub open spec fn parse_payload(d: Seq<u8>) -> Option<PayloadView> {
    match parse_bytes(d) {
        Option::None => Option::None,
        Option::Some((name, r1)) => match parse_u64(r1) {
            Option::None => Option::None,
            Option::Some((flags, r2)) => match parse_bytes(r2) {
                Option::None => Option::None,
                Option::Some((client_version, r3)) => match parse_u16(r3) {
                    Option::None => Option::None,
                    Option::Some((n, r4)) => match parse_addr_list(r4, n as nat) {
                        Option::None => Option::None,
                        Option::Some((listen_addrs, r5)) => match parse_addr(r5) {
                            Option::None => Option::None,
                            Option::Some((observed_addr, r6)) => if r6.len() == 0 {
                                Option::Some(
                                    PayloadView {
                                        name,
                                        flags,
                                        client_version,
                                        listen_addrs,
                                        observed_addr,
                                    },
                                )
                            } else {
                                Option::None
                            },
                        },
                    },
                },
            },
        },
    }
}

/// Parsing undoes encoding of a 16-bit integer, whatever follows.
pub proof fn lemma_parse_enc_u16(n: u16, rest: Seq<u8>)
    ensures
        parse_u16(spec_u16_to_le_bytes(n) + rest) == Option::Some((n, rest)),
{
    lemma_auto_spec_u16_to_from_le_bytes();
    let d = spec_u16_to_le_bytes(n) + rest;
    assert(d.take(2) =~= spec_u16_to_le_bytes(n));
    assert(d.skip(2) =~= rest);
}

/// Parsing undoes encoding of a 64-bit integer, whatever follows.
pub proof fn lemma_parse_enc_u64(n: u64, rest: Seq<u8>)
    ensures
        parse_u64(spec_u64_to_le_bytes(n) + rest) == Option::Some((n, rest)),
{
    lemma_auto_spec_u64_to_from_le_bytes();
    let d = spec_u64_to_le_bytes(n) + rest;
    assert(d.take(8) =~= spec_u64_to_le_bytes(n));
    assert(d.skip(8) =~= rest);
}

/// Parsing undoes encoding of a byte string, whatever follows.
pub proof fn lemma_parse_enc_bytes(b: Seq<u8>, rest: Seq<u8>)
    requires
        wf_bytes(b),
    ensures
        parse_bytes(enc_bytes(b) + rest) == Option::Some((b, rest)),
{
    lemma_auto_spec_u16_to_from_le_bytes();
    let d = enc_bytes(b) + rest;
    assert(d =~= spec_u16_to_le_bytes(b.len() as u16) + (b + rest));
    lemma_parse_enc_u16(b.len() as u16, b + rest);
    assert((b + rest).take(b.len() as int) =~= b);
    assert((b + rest).skip(b.len() as int) =~= rest);
}

/// Parsing undoes encoding of a peer suffix, whatever follows.
pub proof fn lemma_parse_enc_peer(p: Option<Seq<u8>>, rest: Seq<u8>)
    requires
        p matches Option::Some(b) ==> wf_bytes(b),
    ensures
        parse_peer(enc_peer(p) + rest) == Option::Some((p, rest)),
{
    let d = enc_peer(p) + rest;
    match p {
        Option::None => {
            assert(d[0] == 0);
            assert(d.skip(1) =~= rest);
        },
        Option::Some(b) => {
            assert(d[0] == 1);
            assert(d.skip(1) =~= enc_bytes(b) + rest);
            lemma_parse_enc_bytes(b, rest);
        },
    }
}

/// Parsing undoes encoding of one address, whatever follows.
pub proof fn lemma_parse_enc_addr(v: AddrView, rest: Seq<u8>)
    requires
        wf_addr(v),
    ensures
        parse_addr(enc_addr(v) + rest) == Option::Some((v, rest)),
{
    lemma_auto_spec_u16_to_from_le_bytes();
    let d = enc_addr(v) + rest;
    match v {
        AddrView::Socket { a, b, c, d: d4, port, peer } => {
            assert(d[0] == 1 && d[1] == a && d[2] == b && d[3] == c && d[4] == d4);
            assert(d.len() >= 5);
            assert(d.skip(5) =~= spec_u16_to_le_bytes(port) + (enc_peer(peer) + rest));
            lemma_parse_enc_u16(port, enc_peer(peer) + rest);
            lemma_parse_enc_peer(peer, rest);
        },
        AddrView::Opaque { data } => {
            assert(d[0] == 0);
            assert(d.skip(1) =~= enc_bytes(data) + rest);
            lemma_parse_enc_bytes(data, rest);
        },
    }
}

/// Parsing undoes encoding of an address list, whatever follows.
pub proof fn lemma_parse_enc_addr_list(s: Seq<AddrView>, rest: Seq<u8>)
    requires
        forall|i: int| 0 <= i < s.len() ==> wf_addr(#[trigger] s[i]),
    ensures
        parse_addr_list(enc_addr_list(s) + rest, s.len()) == Option::Some((s, rest)),
    decreases s.len(),
{
    if s.len() == 0 {
        assert(enc_addr_list(s) + rest =~= rest);
        assert(parse_addr_list(rest, 0) == Option::Some((Seq::<AddrView>::empty(), rest)));
        assert(s =~= Seq::<AddrView>::empty());
    } else {
        let d = enc_addr_list(s) + rest;
        assert(d =~= enc_addr(s[0]) + (enc_addr_list(s.drop_first()) + rest));
        lemma_parse_enc_addr(s[0], enc_addr_list(s.drop_first()) + rest);
        assert(forall|i: int| 0 <= i < s.drop_first().len() ==> wf_addr(
            #[trigger] s.drop_first()[i],
        ));
        lemma_parse_enc_addr_list(s.drop_first(), rest);
        assert(seq![s[0]] + s.drop_first() =~= s);
    }
}

/// The codec round trip: a well-formed payload, encoded and parsed back,
/// yields itself.
pub proof fn lemma_parse_enc_payload(p: PayloadView)
    requires
        wf_payload(p),
    ensures
        parse_payload(enc_payload(p)) == Option::Some(p),
{
    lemma_auto_spec_u16_to_from_le_bytes();
    let d = enc_payload(p);
    let t_flags = spec_u64_to_le_bytes(p.flags);
    let t_cv = enc_bytes(p.client_version);
    let t_count = spec_u16_to_le_bytes(p.listen_addrs.len() as u16);
    let t_list = enc_addr_list(p.listen_addrs);
    let t_obs = enc_addr(p.observed_addr);
    let r1 = t_flags + t_cv + t_count + t_list + t_obs;
    assert(d =~= enc_bytes(p.name) + r1);
    lemma_parse_enc_bytes(p.name, r1);
    let r2 = t_cv + t_count + t_list + t_obs;
    assert(r1 =~= t_flags + r2);
    lemma_parse_enc_u64(p.flags, r2);
    let r3 = t_count + t_list + t_obs;
    assert(r2 =~= t_cv + r3);
    lemma_parse_enc_bytes(p.client_version, r3);
    let r4 = t_list + t_obs;
    assert(r3 =~= t_count + r4);
    lemma_parse_enc_u16(p.listen_addrs.len() as u16, r4);
    lemma_parse_enc_addr_list(p.listen_addrs, t_obs);
    lemma_parse_enc_addr(p.observed_addr, Seq::empty());
    assert(t_obs + Seq::<u8>::empty() =~= t_obs);
}

/// A parsed 16-bit integer accounts for exactly the bytes it was read from.
proof fn lemma_enc_parse_u16(d: Seq<u8>)
    ensures
        parse_u16(d) matches Option::Some(vr) ==> d == spec_u16_to_le_bytes(vr.0) + vr.1,
{
    lemma_auto_spec_u16_to_from_le_bytes();
    if d.len() >= 2 {
        let v = spec_u16_from_le_bytes(d.take(2));
        assert(d.take(2).len() == 2);
        assert(spec_u16_to_le_bytes(v) == d.take(2));
        assert(d =~= d.take(2) + d.skip(2));
    }
}

/// A parsed 64-bit integer accounts for exactly the bytes it was read from.
proof fn lemma_enc_parse_u64(d: Seq<u8>)
    ensures
        parse_u64(d) matches Option::Some(vr) ==> d == spec_u64_to_le_bytes(vr.0) + vr.1,
{
    lemma_auto_spec_u64_to_from_le_bytes();
    if d.len() >= 8 {
        let v = spec_u64_from_le_bytes(d.take(8));
        assert(d.take(8).len() == 8);
        assert(spec_u64_to_le_bytes(v) == d.take(8));
        assert(d =~= d.take(8) + d.skip(8));
    }
}

/// A parsed byte string is well formed and accounts for exactly the bytes
/// it was read from.
proof fn lemma_enc_parse_bytes(d: Seq<u8>)
    ensures
        parse_bytes(d) matches Option::Some(br) ==> wf_bytes(br.0) && d == enc_bytes(br.0)
            + br.1,
{
    lemma_enc_parse_u16(d);
    match parse_u16(d) {
        Option::Some((n, r1)) => {
            if r1.len() >= n {
                let b = r1.take(n as int);
                assert(b.len() == n < 65536);
                assert(b.len() as u16 == n);
                assert(r1 =~= b + r1.skip(n as int));
                assert(d =~= spec_u16_to_le_bytes(n) + (b + r1.skip(n as int)));
                assert(d =~= enc_bytes(b) + r1.skip(n as int));
            }
        },
        Option::None => {},
    }
}

/// A parsed peer suffix is well formed and accounts for exactly the bytes
/// it was read from.
proof fn lemma_enc_parse_peer(d: Seq<u8>)
    ensures
        parse_peer(d) matches Option::Some(pr) ==> (pr.0 matches Option::Some(b) ==> wf_bytes(
            b,
        )) && d == enc_peer(pr.0) + pr.1,
{
    if d.len() >= 1 {
        if d[0] == 0 {
            assert(d =~= seq![0u8] + d.skip(1));
        } else if d[0] == 1 {
            lemma_enc_parse_bytes(d.skip(1));
            match parse_bytes(d.skip(1)) {
                Option::Some((b, rest)) => {
                    assert(d =~= seq![1u8] + d.skip(1));
                    assert(d =~= seq![1u8] + (enc_bytes(b) + rest));
                    assert(d =~= (seq![1u8] + enc_bytes(b)) + rest);
                },
                Option::None => {},
            }
        }
    }
}

/// A parsed address is well formed and accounts for exactly the bytes it
/// was read from.
proof fn lemma_enc_parse_addr(d: Seq<u8>)
    ensures
        parse_addr(d) matches Option::Some(vr) ==> wf_addr(vr.0) && d == enc_addr(vr.0) + vr.1,
{
    if d.len() >= 1 && d[0] == 1 && d.len() >= 5 {
        lemma_enc_parse_u16(d.skip(5));
        match parse_u16(d.skip(5)) {
            Option::Some((port, r1)) => {
                lemma_enc_parse_peer(r1);
                match parse_peer(r1) {
                    Option::Some((peer, r2)) => {
                        assert(d.take(5) =~= seq![1u8, d[1], d[2], d[3], d[4]]);
                        assert(d =~= d.take(5) + d.skip(5));
                        assert(d =~= seq![1u8, d[1], d[2], d[3], d[4]] + (spec_u16_to_le_bytes(
                            port,
                        ) + (enc_peer(peer) + r2)));
                        let v = AddrView::Socket {
                            a: d[1],
                            b: d[2],
                            c: d[3],
                            d: d[4],
                            port,
                            peer,
                        };
                        assert(d =~= enc_addr(v) + r2);
                    },
                    Option::None => {},
                }
            },
            Option::None => {},
        }
    } else if d.len() >= 1 && d[0] == 0 {
        lemma_enc_parse_bytes(d.skip(1));
        match parse_bytes(d.skip(1)) {
            Option::Some((data, rest)) => {
                assert(d =~= seq![0u8] + d.skip(1));
                assert(d =~= seq![0u8] + (enc_bytes(data) + rest));
                assert(d =~= (seq![0u8] + enc_bytes(data)) + rest);
            },
            Option::None => {},
        }
    }
}

/// A parsed address list is well formed element by element and accounts for
/// exactly the bytes it was read from.
proof fn lemma_enc_parse_addr_list(d: Seq<u8>, n: nat)
    ensures
        parse_addr_list(d, n) matches Option::Some(vr) ==> (forall|i: int|
            0 <= i < vr.0.len() ==> wf_addr(#[trigger] vr.0[i])) && vr.0.len() == n && d
            == enc_addr_list(vr.0) + vr.1,
    decreases n,
{
    if n == 0 {
        match parse_addr_list(d, n) {
            Option::Some((vs, rest)) => {
                assert(enc_addr_list(vs) =~= Seq::<u8>::empty());
                assert(d =~= enc_addr_list(vs) + d);
            },
            Option::None => {},
        }
    } else {
        lemma_enc_parse_addr(d);
        match parse_addr(d) {
            Option::Some((v, rest)) => {
                lemma_enc_parse_addr_list(rest, (n - 1) as nat);
                match parse_addr_list(rest, (n - 1) as nat) {
                    Option::Some((vs, rest2)) => {
                        let all = seq![v] + vs;
                        assert(all[0] == v);
                        assert(all.drop_first() =~= vs);
                        assert(enc_addr_list(all) == enc_addr(v) + enc_addr_list(vs));
                        assert(d =~= enc_addr(v) + (enc_addr_list(vs) + rest2));
                        assert(d =~= enc_addr_list(all) + rest2);
                    },
                    Option::None => {},
                }
            },
            Option::None => {},
        }
    }
}

/// Decoding is the exact inverse of encoding: a buffer that parses yields a
/// well-formed payload whose encoding is that buffer, so the wire form of
/// every payload is canonical.
pub proof fn lemma_parse_is_canonical(d: Seq<u8>)
    ensures
        parse_payload(d) matches Option::Some(p) ==> wf_payload(p) && enc_payload(p) == d,
{
    lemma_enc_parse_bytes(d);
    match parse_bytes(d) {
        Option::None => {},
        Option::Some((name, r1)) => {
            lemma_enc_parse_u64(r1);
            match parse_u64(r1) {
                Option::None => {},
                Option::Some((flags, r2)) => {
                    lemma_enc_parse_bytes(r2);
                    match parse_bytes(r2) {
                        Option::None => {},
                        Option::Some((client_version, r3)) => {
                            lemma_enc_parse_u16(r3);
                            match parse_u16(r3) {
                                Option::None => {},
                                Option::Some((n, r4)) => {
                                    lemma_enc_parse_addr_list(r4, n as nat);
                                    match parse_addr_list(r4, n as nat) {
                                        Option::None => {},
                                        Option::Some((listen_addrs, r5)) => {
                                            lemma_enc_parse_addr(r5);
                                            match parse_addr(r5) {
                                                Option::None => {},
                                                Option::Some((observed_addr, r6)) => {
                                                    if r6.len() == 0 {
                                                        let p = PayloadView {
                                                            name,
                                                            flags,
                                                            client_version,
                                                            listen_addrs,
                                                            observed_addr,
                                                        };
                                                        assert(listen_addrs.len() as u16 == n);
                                                        assert(r5 =~= enc_addr(observed_addr)
                                                            + r6);
                                                        assert(r5 =~= enc_addr(observed_addr));
                                                        assert(d =~= enc_bytes(name) + (
                                                        spec_u64_to_le_bytes(flags) + (enc_bytes(
                                                            client_version,
                                                        ) + (spec_u16_to_le_bytes(n) + (
                                                        enc_addr_list(listen_addrs) + r5)))));
                                                        assert(d =~= enc_payload(p));
                                                    }
                                                },
                                            }
                                        },
                                    }
                                },
                            }
                        },
                    }
                },
            }
        },
    }
}

/// Appends the little-endian bytes of a 16-bit integer.
fn push_u16(out: &mut Vec<u8>, n: u16)
    ensures
        final(out)@ == old(out)@ + spec_u16_to_le_bytes(n),
{
    let mut t = u16_to_le_bytes(n);
    out.append(&mut t);
}

/// Appends the little-endian bytes of a 64-bit integer.
fn push_u64(out: &mut Vec<u8>, n: u64)
    ensures
        final(out)@ == old(out)@ + spec_u64_to_le_bytes(n),
{
    let mut t = u64_to_le_bytes(n);
    out.append(&mut t);
}

/// Appends a length-prefixed byte string.
fn push_bytes(out: &mut Vec<u8>, b: &Vec<u8>)
    requires
        wf_bytes(b@),
    ensures
        final(out)@ == old(out)@ + enc_bytes(b@),
{
    push_u16(out, b.len() as u16);
    let mut t = clone_bytes(b);
    out.append(&mut t);
    proof {
        assert(final(out)@ =~= old(out)@ + enc_bytes(b@));
    }
}

/// Appends the encoding of one address.
fn push_addr(out: &mut Vec<u8>, addr: &NetAddress)
    requires
        wf_addr(addr@),
    ensures
        final(out)@ == old(out)@ + enc_addr(addr@),
{
    match addr {
        NetAddress::Socket { a, b, c, d, port, peer } => {
            out.push(1u8);
            out.push(*a);
            out.push(*b);
            out.push(*c);
            out.push(*d);
            push_u16(out, *port);
            match peer {
                Option::None => out.push(0u8),
                Option::Some(p) => {
                    out.push(1u8);
                    push_bytes(out, p);
                },
            }
        },
        NetAddress::Opaque { data } => {
            out.push(0u8);
            push_bytes(out, data);
        },
    }
    proof {
        assert(final(out)@ =~= old(out)@ + enc_addr(addr@));
    }
}

impl IdentifyPayload {
    /// Encodes the payload into its wire form.
    pub fn encode(&self) -> (r: Vec<u8>)
        requires
            wf_payload(self@),
        ensures
            r@ == enc_payload(self@),
    {
        let mut out: Vec<u8> = Vec::new();
        push_bytes(&mut out, &self.name);
        push_u64(&mut out, self.flags);
        push_bytes(&mut out, &self.client_version);
        push_u16(&mut out, self.listen_addrs.len() as u16);
        let ghost base = out@;
        let n = self.listen_addrs.len();
        for i in 0..n
            invariant
                n == self.listen_addrs.len(),
                forall|k: int| 0 <= k < n ==> wf_addr(#[trigger] self@.listen_addrs[k]),
                out@ == base + enc_addr_list(self@.listen_addrs.take(i as int)),
        {
            let ghost before = self@.listen_addrs.take(i as int);
            push_addr(&mut out, &self.listen_addrs[i]);
            proof {
                lemma_enc_addr_list_snoc(before, self@.listen_addrs[i as int]);
                assert(before.push(self@.listen_addrs[i as int]) =~= self@.listen_addrs.take(
                    i + 1,
                ));
                assert(out@ =~= base + enc_addr_list(self@.listen_addrs.take(i + 1)));
            }
        }
        proof {
            assert(self@.listen_addrs.take(n as int) =~= self@.listen_addrs);
        }
        push_addr(&mut out, &self.observed_addr);
        proof {
            assert(out@ =~= enc_payload(self@));
        }
        out
    }
}

/// Appending one address to a list appends its encoding.
proof fn lemma_enc_addr_list_snoc(s: Seq<AddrView>, v: AddrView)
    ensures
        enc_addr_list(s.push(v)) == enc_addr_list(s) + enc_addr(v),
    decreases s.len(),
{
    if s.len() == 0 {
        assert(s.push(v)[0] == v);
        assert(s.push(v).drop_first() =~= Seq::<AddrView>::empty());
        assert(s =~= Seq::<AddrView>::empty());
        assert(enc_addr_list(Seq::<AddrView>::empty()) =~= Seq::<u8>::empty());
        assert(enc_addr_list(s.push(v)) =~= enc_addr(v) + Seq::<u8>::empty());
        assert(enc_addr_list(s.push(v)) =~= enc_addr_list(s) + enc_addr(v));
    } else {
        assert(s.push(v).drop_first() =~= s.drop_first().push(v));
        lemma_enc_addr_list_snoc(s.drop_first(), v);
        assert(s.push(v)[0] == s[0]);
        assert(enc_addr_list(s.push(v)) =~= enc_addr(s[0]) + (enc_addr_list(s.drop_first())
            + enc_addr(v)));
        assert(enc_addr_list(s.push(v)) =~= enc_addr_list(s) + enc_addr(v));
    }
}

/// Reads a 16-bit integer at offset `i`.
fn read_u16(d: &[u8], i: usize) -> (r: Option<(u16, usize)>)
    requires
        i <= d@.len(),
    ensures
        match r {
            Option::Some((v, j)) => parse_u16(d@.skip(i as int)) == Option::Some(
                (v, d@.skip(j as int)),
            ) && i <= j <= d@.len(),
            Option::None => parse_u16(d@.skip(i as int)) is None,
        },
{
    if d.len() - i < 2 {
        Option::None
    } else {
        let s = slice_subrange(d, i, i + 2);
        let v = u16_from_le_bytes(s);
        proof {
            assert(d@.skip(i as int).take(2) =~= d@.subrange(i as int, i + 2));
            assert(d@.skip(i as int).skip(2) =~= d@.skip(i + 2));
        }
        Option::Some((v, i + 2))
    }
}

/// Reads a 64-bit integer at offset `i`.
fn read_u64(d: &[u8], i: usize) -> (r: Option<(u64, usize)>)
    requires
        i <= d@.len(),
    ensures
        match r {
            Option::Some((v, j)) => parse_u64(d@.skip(i as int)) == Option::Some(
                (v, d@.skip(j as int)),
            ) && i <= j <= d@.len(),
            Option::None => parse_u64(d@.skip(i as int)) is None,
        },
{
    if d.len() - i < 8 {
        Option::None
    } else {
        let s = slice_subrange(d, i, i + 8);
        let v = u64_from_le_bytes(s);
        proof {
            assert(d@.skip(i as int).take(8) =~= d@.subrange(i as int, i + 8));
            assert(d@.skip(i as int).skip(8) =~= d@.skip(i + 8));
        }
        Option::Some((v, i + 8))
    }
}

/// Reads a length-prefixed byte string at offset `i`.
fn read_bytes(d: &[u8], i: usize) -> (r: Option<(Vec<u8>, usize)>)
    requires
        i <= d@.len(),
    ensures
        match r {
            Option::Some((b, j)) => parse_bytes(d@.skip(i as int)) == Option::Some(
                (b@, d@.skip(j as int)),
            ) && i <= j <= d@.len(),
            Option::None => parse_bytes(d@.skip(i as int)) is None,
        },
{
    match read_u16(d, i) {
        Option::None => Option::None,
        Option::Some((n, j)) => {
            if d.len() - j < n as usize {
                Option::None
            } else {
                let b = slice_to_vec(slice_subrange(d, j, j + n as usize));
                proof {
                    assert(d@.skip(j as int).take(n as int) =~= d@.subrange(
                        j as int,
                        j + n as int,
                    ));
                    assert(d@.skip(j as int).skip(n as int) =~= d@.skip(j + n as int));
                }
                Option::Some((b, j + n as usize))
            }
        },
    }
}

/// Reads an optional peer-identity suffix at offset `i`.
fn read_peer(d: &[u8], i: usize) -> (r: Option<(Option<Vec<u8>>, usize)>)
    requires
        i <= d@.len(),
    ensures
        match r {
            Option::Some((p, j)) => ({
                let pv = match p {
                    Option::Some(b) => Option::Some(b@),
                    Option::None => Option::None,
                };
                parse_peer(d@.skip(i as int)) == Option::Some((pv, d@.skip(j as int))) && i <= j
                    <= d@.len()
            }),
            Option::None => parse_peer(d@.skip(i as int)) is None,
        },
{
    if d.len() - i < 1 {
        Option::None
    } else {
        let tag = d[i];
        proof {
            assert(d@.skip(i as int)[0] == d@[i as int]);
            assert(d@.skip(i as int).skip(1) =~= d@.skip(i + 1));
        }
        if tag == 0 {
            Option::Some((Option::None, i + 1))
        } else if tag == 1 {
            match read_bytes(d, i + 1) {
                Option::None => Option::None,
                Option::Some((b, j)) => Option::Some((Option::Some(b), j)),
            }
        } else {
            Option::None
        }
    }
}

/// Reads one address at offset `i`.
fn read_addr(d: &[u8], i: usize) -> (r: Option<(NetAddress, usize)>)
    requires
        i <= d@.len(),
    ensures
        match r {
            Option::Some((v, j)) => parse_addr(d@.skip(i as int)) == Option::Some(
                (v@, d@.skip(j as int)),
            ) && i <= j <= d@.len(),
            Option::None => parse_addr(d@.skip(i as int)) is None,
        },
{
    if d.len() - i < 1 {
        Option::None
    } else {
        let tag = d[i];
        proof {
            assert(d@.skip(i as int)[0] == d@[i as int]);
            assert(d@.skip(i as int).skip(1) =~= d@.skip(i + 1));
        }
        if tag == 1 {
            if d.len() - i < 5 {
                Option::None
            } else {
                let a = d[i + 1];
                let b = d[i + 2];
                let c = d[i + 3];
                let e = d[i + 4];
                proof {
                    assert(d@.skip(i as int)[1] == d@[i + 1]);
                    assert(d@.skip(i as int)[2] == d@[i + 2]);
                    assert(d@.skip(i as int)[3] == d@[i + 3]);
                    assert(d@.skip(i as int)[4] == d@[i + 4]);
                    assert(d@.skip(i as int).skip(5) =~= d@.skip(i + 5));
                }
                match read_u16(d, i + 5) {
                    Option::None => Option::None,
                    Option::Some((port, j1)) => {
                        match read_peer(d, j1) {
                            Option::None => Option::None,
                            Option::Some((peer, j2)) => Option::Some(
                                (
                                    NetAddress::Socket { a, b, c, d: e, port, peer },
                                    j2,
                                ),
                            ),
                        }
                    },
                }
            }
        } else if tag == 0 {
            match read_bytes(d, i + 1) {
                Option::None => Option::None,
                Option::Some((data, j)) => Option::Some((NetAddress::Opaque { data }, j)),
            }
        } else {
            Option::None
        }
    }
}

/// Reads `n` consecutive addresses at offset `i`.
fn read_addr_list(d: &[u8], i: usize, n: u16) -> (r: Option<(Vec<NetAddress>, usize)>)
    requires
        i <= d@.len(),
    ensures
        match r {
            Option::Some((vs, j)) => parse_addr_list(d@.skip(i as int), n as nat)
                == Option::Some((addr_views(vs@), d@.skip(j as int))) && i <= j <= d@.len(),
            Option::None => parse_addr_list(d@.skip(i as int), n as nat) is None,
        },
    decreases n,
{
    if n == 0 {
        let vs: Vec<NetAddress> = Vec::new();
        proof {
            assert(addr_views(vs@) =~= Seq::<AddrView>::empty());
        }
        Option::Some((vs, i))
    } else {
        match read_addr(d, i) {
            Option::None => Option::None,
            Option::Some((v, j)) => {
                match read_addr_list(d, j, n - 1) {
                    Option::None => Option::None,
                    Option::Some((mut vs, j2)) => {
                        let ghost tail = addr_views(vs@);
                        vs.insert(0, v);
                        proof {
                            assert(addr_views(vs@) =~= seq![v@] + tail);
                        }
                        Option::Some((vs, j2))
                    },
                }
            },
        }
    }
}

impl IdentifyPayload {
    /// Decodes a payload from its wire form. Returns the parsed payload
    /// exactly when the buffer is a well-formed encoding consumed in full;
    /// any malformed buffer is rejected cleanly.
    pub fn decode(data: &[u8]) -> (r: Option<IdentifyPayload>)
        ensures
            match r {
                Option::Some(p) => parse_payload(data@) == Option::Some(p@),
                Option::None => parse_payload(data@) is None,
            },
    {
        proof {
            assert(data@.skip(0) =~= data@);
        }
        match read_bytes(data, 0) {
            Option::None => Option::None,
            Option::Some((name, i1)) => match read_u64(data, i1) {
                Option::None => Option::None,
                Option::Some((flags, i2)) => match read_bytes(data, i2) {
                    Option::None => Option::None,
                    Option::Some((client_version, i3)) => match read_u16(data, i3) {
                        Option::None => Option::None,
                        Option::Some((n, i4)) => match read_addr_list(data, i4, n) {
                            Option::None => Option::None,
                            Option::Some((listen_addrs, i5)) => match read_addr(data, i5) {
                                Option::None => Option::None,
                                Option::Some((observed_addr, i6)) => {
                                    if i6 == data.len() {
                                        proof {
                                            assert(data@.skip(i6 as int).len() == 0);
                                        }
                                        Option::Some(
                                            IdentifyPayload {
                                                name,
                                                flags,
                                                client_version,
                                                listen_addrs,
                                                observed_addr,
                                            },
                                        )
                                    } else {
                                        proof {
                                            assert(data@.skip(i6 as int).len() != 0);
                                        }
                                        Option::None
                                    }
                                },
                            },
                        },
                    },
                },
            },
        }
    }
}

} // verus!
