//! The protocol-dispatch adapter's decision core.
//!
//! [`CKBProtocol`] carries the static description of one protocol — id,
//! name, supported versions (highest first), frame limit, blocking policy.
//! [`DispatchAdapter`] holds the adapter's forwarding rules: the peer
//! registry's per-session version map is updated on every connect and
//! disconnect, unconditionally, while handler forwarding is gated on the
//! owning network process being active, so protocols stop producing side
//! effects during shutdown while the bookkeeping stays consistent. The
//! transport glue that carries these decisions out lives outside the
//! library.

use vstd::prelude::*;
use vstd::seq_lib::group_to_multiset_ensures;
use vstd::string::StringExecFns;
use vstd::utf8::encode_utf8;

use crate::support::{BlockingPolicy, ProtocolId, SupportProtocols};

verus! {

broadcast use group_to_multiset_ensures;

/// Byte-wise lexicographic order: `a` is less than or equal to `b`.
pub open spec fn bytes_le(a: Seq<u8>, b: Seq<u8>) -> bool
    decreases a.len(),
{
    if a.len() == 0 {
        true
    } else if b.len() == 0 {
        false
    } else if a[0] < b[0] {
        true
    } else if a[0] > b[0] {
        false
    } else {
        bytes_le(a.drop_first(), b.drop_first())
    }
}

/// The byte-wise order on the UTF-8 encodings of two strings.
pub open spec fn version_le(a: Seq<char>, b: Seq<char>) -> bool {
    bytes_le(encode_utf8(a), encode_utf8(b))
}

/// The byte-wise order is total.
pub proof fn lemma_bytes_le_total(a: Seq<u8>, b: Seq<u8>)
    ensures
        bytes_le(a, b) || bytes_le(b, a),
    decreases a.len(),
{
    if a.len() > 0 && b.len() > 0 && a[0] == b[0] {
        lemma_bytes_le_total(a.drop_first(), b.drop_first());
    }
}

/// Equal prefixes do not affect the byte-wise order of the remainders.
proof fn lemma_bytes_le_skip(a: Seq<u8>, b: Seq<u8>, i: int)
    requires
        0 <= i <= a.len(),
        i <= b.len(),
        forall|k: int| 0 <= k < i ==> a[k] == b[k],
    ensures
        bytes_le(a, b) == bytes_le(a.skip(i), b.skip(i)),
    decreases i,
{
    if i > 0 {
        assert(a.len() > 0 && b.len() > 0 && a[0] == b[0]);
        assert(a.drop_first().skip(i - 1) =~= a.skip(i));
        assert(b.drop_first().skip(i - 1) =~= b.skip(i));
        lemma_bytes_le_skip(a.drop_first(), b.drop_first(), i - 1);
    } else {
        assert(a.skip(0) =~= a);
        assert(b.skip(0) =~= b);
    }
}

/// Compares two strings in byte-wise lexicographic order.
pub fn str_version_le(a: &String, b: &String) -> (r: bool)
    ensures
        r == version_le(a@, b@),
{
    let x = a.as_str().as_bytes();
    let y = b.as_str().as_bytes();
    let n = if x.len() < y.len() {
        x.len()
    } else {
        y.len()
    };
    for i in 0..n
        invariant
            n <= x@.len(),
            n <= y@.len(),
            x@ == encode_utf8(a@),
            y@ == encode_utf8(b@),
            forall|k: int| 0 <= k < i ==> x@[k] == y@[k],
    {
        let xi = x[i];
        let yi = y[i];
        if xi < yi {
            proof {
                lemma_bytes_le_skip(x@, y@, i as int);
                assert(bytes_le(x@.skip(i as int), y@.skip(i as int)));
            }
            return true;
        }
        if xi > yi {
            proof {
                lemma_bytes_le_skip(x@, y@, i as int);
                assert(!bytes_le(x@.skip(i as int), y@.skip(i as int)));
            }
            return false;
        }
    }
    let r = x.len() <= y.len();
    proof {
        lemma_bytes_le_skip(x@, y@, n as int);
        if x@.len() <= y@.len() {
            assert(x@.skip(n as int).len() == 0);
            assert(bytes_le(x@.skip(n as int), y@.skip(n as int)));
        } else {
            assert(x@.skip(n as int).len() > 0);
            assert(y@.skip(n as int).len() == 0);
            assert(!bytes_le(x@.skip(n as int), y@.skip(n as int)));
        }
    }
    r
}

/// The views of a list of version strings.
pub open spec fn version_views(s: Seq<String>) -> Seq<Seq<char>> {
    s.map_values(|x: String| x@)
}

/// The list is sorted in descending byte-wise order.
pub open spec fn sorted_desc(s: Seq<Seq<char>>) -> bool {
    forall|i: int, j: int| 0 <= i < j < s.len() ==> version_le(#[trigger] s[j], #[trigger] s[i])
}

/// Sorts version strings in descending byte-wise order, keeping exactly the
/// given strings.
pub fn sort_versions_desc(versions: Vec<String>) -> (r: Vec<String>)
    ensures
        sorted_desc(version_views(r@)),
        r@.to_multiset() == versions@.to_multiset(),
{
    let mut src = versions;
    let mut out: Vec<String> = Vec::new();
    proof {
        assert(out@.to_multiset().add(src@.to_multiset()) =~= versions@.to_multiset());
    }
    while src.len() > 0
        invariant
            out@.to_multiset().add(src@.to_multiset()) == versions@.to_multiset(),
            sorted_desc(version_views(out@)),
            forall|i: int, j: int|
                0 <= i < out@.len() && 0 <= j < src@.len() ==> version_le(
                    #[trigger] src@[j]@,
                    #[trigger] out@[i]@,
                ),
        decreases src.len(),
    {
        let mut m: usize = 0;
        let n = src.len();
        proof {
            lemma_bytes_le_total(encode_utf8(src@[0]@), encode_utf8(src@[0]@));
        }
        for i in 1..n
            invariant
                n == src@.len(),
                m < n,
                forall|k: int| 0 <= k < i ==> version_le(#[trigger] src@[k]@, src@[m as int]@),
        {
            if str_version_le(&src[m], &src[i]) {
                proof {
                    assert forall|k: int| 0 <= k < i + 1 implies version_le(
                        #[trigger] src@[k]@,
                        src@[i as int]@,
                    ) by {
                        lemma_bytes_le_total(encode_utf8(src@[k]@), encode_utf8(src@[i as int]@));
                        if k < i {
                            lemma_version_le_trans(src@[k]@, src@[m as int]@, src@[i as int]@);
                        }
                    }
                }
                m = i;
            } else {
                proof {
                    lemma_bytes_le_total(encode_utf8(src@[m as int]@), encode_utf8(
                        src@[i as int]@,
                    ));
                }
            }
        }
        let ghost src0 = src@;
        let ghost out0 = out@;
        let x = src.remove(m);
        out.push(x);
        proof {
            assert(src@.to_multiset() =~= src0.to_multiset().remove(src0[m as int]));
            assert(out@.to_multiset() =~= out0.to_multiset().insert(src0[m as int]));
            assert(src0.to_multiset().count(src0[m as int]) > 0);
            assert(out@.to_multiset().add(src@.to_multiset()) =~= versions@.to_multiset());
            assert(version_views(out@) =~= version_views(out0).push(src0[m as int]@));
            assert forall|i: int, j: int|
                0 <= i < out@.len() && 0 <= j < src@.len() implies version_le(
                #[trigger] src@[j]@,
                #[trigger] out@[i]@,
            ) by {
                let j0 = if j < m as int {
                    j
                } else {
                    j + 1
                };
                assert(src@[j] == src0[j0]);
            }
        }
    }
    proof {
        assert(src@.to_multiset() =~= Seq::<String>::empty().to_multiset());
        assert(out@.to_multiset().add(src@.to_multiset()) =~= out@.to_multiset());
    }
    out
}

/// The byte-wise order on strings is transitive.
pub proof fn lemma_version_le_trans(a: Seq<char>, b: Seq<char>, c: Seq<char>)
    requires
        version_le(a, b),
        version_le(b, c),
    ensures
        version_le(a, c),
{
    lemma_bytes_le_trans(encode_utf8(a), encode_utf8(b), encode_utf8(c));
}

/// The byte-wise order is transitive.
pub proof fn lemma_bytes_le_trans(a: Seq<u8>, b: Seq<u8>, c: Seq<u8>)
    requires
        bytes_le(a, b),
        bytes_le(b, c),
    ensures
        bytes_le(a, c),
    decreases a.len(),
{
    if a.len() > 0 && b.len() > 0 && c.len() > 0 && a[0] == b[0] && b[0] == c[0] {
        lemma_bytes_le_trans(a.drop_first(), b.drop_first(), c.drop_first());
    }
}

/// The static description of one protocol, used to build its transport
/// registration.
#[derive(Debug)]
pub struct CKBProtocol {
    /// Numeric protocol id.
    pub id: ProtocolId,
    /// Full wire name, always under the `/ckb/` prefix.
    pub protocol_name: String,
    /// Supported versions, highest first.
    pub supported_versions: Vec<String>,
    /// Maximum frame length in bytes.
    pub max_frame_length: usize,
    /// Which lifecycle events run as blocking work.
    pub flag: BlockingPolicy,
}

impl CKBProtocol {
    /// The spec-level list of supported version strings.
    pub open spec fn versions(self) -> Seq<Seq<char>> {
        version_views(self.supported_versions@)
    }

    /// The spec-level protocol id.
    pub open spec fn spec_id(self) -> ProtocolId {
        self.id
    }

    /// The spec-level protocol name.
    pub open spec fn spec_name(self) -> Seq<char> {
        self.protocol_name@
    }

    /// The spec-level frame limit.
    pub open spec fn spec_max_frame_length(self) -> usize {
        self.max_frame_length
    }

    /// The spec-level blocking policy.
    pub open spec fn spec_flag(self) -> BlockingPolicy {
        self.flag
    }

    /// Builds the description of a supported protocol from the fixed table.
    pub fn new_with_support_protocol(support_protocol: SupportProtocols) -> (r: CKBProtocol)
        ensures
            r.spec_id() == support_protocol.spec_protocol_id(),
            r.spec_name() == support_protocol.spec_name(),
            r.versions().len() == 1 && r.versions()[0] == "2"@,
            r.spec_max_frame_length() == support_protocol.spec_max_frame_length(),
            r.spec_flag() == support_protocol.spec_flag(),
    {
        let versions = support_protocol.support_versions();
        let r = CKBProtocol {
            id: support_protocol.protocol_id(),
            max_frame_length: support_protocol.max_frame_length(),
            protocol_name: support_protocol.name(),
            supported_versions: versions,
            flag: support_protocol.flag(),
        };
        proof {
            assert(r.versions() =~= seq!["2"@]);
        }
        r
    }

    /// Builds a description from explicit parts: the name is placed under
    /// the `/ckb/` prefix and the versions are sorted highest first.
    pub fn new(
        protocol_name: String,
        id: ProtocolId,
        versions: Vec<String>,
        max_frame_length: usize,
        flag: BlockingPolicy,
    ) -> (r: CKBProtocol)
        ensures
            r.spec_id() == id,
            r.spec_name() == "/ckb/"@ + protocol_name@,
            sorted_desc(r.versions()),
            r.supported_versions@.to_multiset() == versions@.to_multiset(),
            r.spec_max_frame_length() == max_frame_length,
            r.spec_flag() == flag,
    {
        CKBProtocol {
            id,
            max_frame_length,
            protocol_name: ("/ckb/".to_owned()).concat(protocol_name.as_str()),
            supported_versions: sort_versions_desc(versions),
            flag,
        }
    }

    /// The protocol id.
    pub fn id(&self) -> (r: ProtocolId)
        ensures
            r == self.spec_id(),
    {
        self.id
    }

    /// The protocol name.
    pub fn protocol_name(&self) -> (r: String)
        ensures
            r@ == self.spec_name(),
    {
        self.protocol_name.clone()
    }

    /// Whether the given version is among the supported ones.
    pub fn match_version(&self, version: &String) -> (r: bool)
        ensures
            r == self.versions().contains(version@),
    {
        let n = self.supported_versions.len();
        for i in 0..n
            invariant
                n == self.supported_versions@.len(),
                forall|k: int| 0 <= k < i ==> self.versions()[k] != version@,
        {
            if self.supported_versions[i].eq(version) {
                proof {
                    assert(self.versions()[i as int] == version@);
                }
                return true;
            }
        }
        proof {
            if self.versions().contains(version@) {
                let j = choose|j: int|
                    0 <= j < self.versions().len() && self.versions()[j] == version@;
                assert(self.versions()[j] != version@);
            }
        }
        false
    }

    /// The maximum frame length.
    pub fn max_frame_length(&self) -> (r: usize)
        ensures
            r == self.spec_max_frame_length(),
    {
        self.max_frame_length
    }
}

/// A change to the peer registry's per-session protocol-version map.
#[derive(Debug)]
pub enum VersionMapUpdate {
    /// Record the negotiated version of this protocol for the session.
    Insert {
        /// The session.
        session: u64,
        /// The negotiated version.
        version: String,
    },
    /// Drop this protocol's entry for the session.
    Remove {
        /// The session.
        session: u64,
    },
}

/// What the adapter does with one lifecycle event: the registry change to
/// apply, and whether the event is forwarded to the protocol handler.
#[derive(Debug)]
pub struct DispatchPlan {
    /// The registry bookkeeping, applied unconditionally.
    pub registry: Option<VersionMapUpdate>,
    /// Whether the handler sees the event.
    pub forward: bool,
}

/// The dispatch adapter for one protocol: forwards lifecycle events to the
/// protocol handler while the network process is active, and keeps the
/// registry's version map consistent regardless.
#[derive(Clone, Copy, Debug, PartialEq, Eq, Structural)]
pub struct DispatchAdapter {
    /// The protocol this adapter serves.
    pub proto_id: ProtocolId,
}

impl DispatchAdapter {
    /// Startup is always forwarded; it carries no session.
    pub fn on_init(&self) -> (r: DispatchPlan)
        ensures
            r.registry is None,
            r.forward,
    {
        DispatchPlan { registry: Option::None, forward: true }
    }

    /// A session opened this protocol: its negotiated version is recorded
    /// even while the process is inactive; the handler runs only while it
    /// is active.
    pub fn on_connected(&self, active: bool, session: u64, version: &String) -> (r: DispatchPlan)
        ensures
            (r.registry matches Option::Some(u) && (u matches VersionMapUpdate::Insert {
                session: s,
                version: v,
            } && s == session && v@ == version@)),
            r.forward == active,
    {
        DispatchPlan {
            registry: Option::Some(
                VersionMapUpdate::Insert { session, version: version.clone() },
            ),
            forward: active,
        }
    }

    /// A session closed this protocol: its version entry is dropped even
    /// while the process is inactive; the handler runs only while it is
    /// active.
    pub fn on_disconnected(&self, active: bool, session: u64) -> (r: DispatchPlan)
        ensures
            (r.registry matches Option::Some(u) && (u matches VersionMapUpdate::Remove {
                session: s,
            } && s == session)),
            r.forward == active,
    {
        DispatchPlan {
            registry: Option::Some(VersionMapUpdate::Remove { session }),
            forward: active,
        }
    }

    /// A frame arrived: no bookkeeping; forwarded only while active.
    pub fn on_received(&self, active: bool) -> (r: DispatchPlan)
        ensures
            r.registry is None,
            r.forward == active,
    {
        DispatchPlan { registry: Option::None, forward: active }
    }

    /// A timer fired: no bookkeeping; forwarded only while active.
    pub fn on_notify(&self, active: bool) -> (r: DispatchPlan)
        ensures
            r.registry is None,
            r.forward == active,
    {
        DispatchPlan { registry: Option::None, forward: active }
    }

    /// Polling is always forwarded: it drives the handler's own futures.
    pub fn on_poll(&self) -> (r: DispatchPlan)
        ensures
            r.registry is None,
            r.forward,
    {
        DispatchPlan { registry: Option::None, forward: true }
    }
}

} // verus!
