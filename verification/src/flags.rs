//! Capability flags advertised during the identify handshake.
//!
//! A node describes the protocol set it supports as a 64-bit bitmask. The
//! `contains` relation decides whether a remote peer covers every capability
//! the local node requires.

use vstd::prelude::*;

verus! {

/// A capability bitmask. The value `0` is invalid on the wire and is always
/// rejected by identify verification.
#[derive(Clone, Copy, Debug, PartialEq, Eq, Structural)]
pub struct Flags(pub u64);

/// Named capability bits.
#[derive(Clone, Copy, Debug, PartialEq, Eq, Structural)]
pub enum Flag {
    /// The node supports the full protocol set.
    FullNode,
}

impl Flag {
    /// The bit assigned to this capability.
    pub open spec fn spec_bits(self) -> u64 {
        match self {
            Flag::FullNode => 0x1,
        }
    }

    /// The bit assigned to this capability.
    pub fn bits(self) -> (r: u64)
        ensures
            r == self.spec_bits(),
    {
        match self {
            Flag::FullNode => 0x1,
        }
    }
}

impl Flags {
    /// `self` covers every bit that is set in `flags`.
    pub open spec fn spec_contains(self, flags: Flags) -> bool {
        self.0 & flags.0 == flags.0
    }

    /// Whether every bit set in `flags` is also set in `self`.
    pub fn contains(self, flags: Flags) -> (r: bool)
        ensures
            r == self.spec_contains(flags),
    {
        (self.0 & flags.0) == flags.0
    }
}

impl From<u64> for Flags {
    fn from(value: u64) -> (r: Flags) {
        Flags(value)
    }
}

impl vstd::std_specs::convert::FromSpecImpl<u64> for Flags {
    open spec fn obeys_from_spec() -> bool {
        true
    }

    open spec fn from_spec(value: u64) -> Flags {
        Flags(value)
    }
}

impl From<Flag> for Flags {
    fn from(value: Flag) -> (r: Flags) {
        Flags(value.bits())
    }
}

impl vstd::std_specs::convert::FromSpecImpl<Flag> for Flags {
    open spec fn obeys_from_spec() -> bool {
        true
    }

    open spec fn from_spec(value: Flag) -> Flags {
        Flags(value.spec_bits())
    }
}

/// Bit `i` of `x` is set.
pub open spec fn bit_set(x: u64, i: u64) -> bool {
    i < 64 && (x >> i) & 1 == 1
}

/// A nonzero word has at least one set bit.
proof fn lemma_nonzero_has_bit(z: u64)
    requires
        z != 0,
    ensures
        exists|i: u64| bit_set(z, i),
    decreases z,
{
    if z & 1 == 1 {
        assert(z & 1 == 1 ==> (z >> 0u64) & 1 == 1) by (bit_vector);
        assert(bit_set(z, 0));
    } else {
        assert(z != 0 && z & 1 != 1 ==> z >> 1 != 0 && z >> 1 < z) by (bit_vector);
        lemma_nonzero_has_bit(z >> 1);
        let j = choose|j: u64| bit_set(z >> 1, j);
        assert(!(((z >> 1) >> 63u64) & 1 == 1)) by (bit_vector);
        assert(j < 63);
        assert(j < 63 && ((z >> 1) >> j) & 1 == 1 ==> (z >> (j + 1)) & 1 == 1)
            by (bit_vector);
        assert(bit_set(z, (j + 1) as u64));
    }
}

/// `a.contains(b)` holds exactly when every bit set in `b` is set in `a`.
pub proof fn lemma_contains_bitwise(a: Flags, b: Flags)
    ensures
        a.spec_contains(b) <==> (forall|i: u64| bit_set(b.0, i) ==> bit_set(a.0, i)),
{
    let x = a.0;
    let y = b.0;
    if a.spec_contains(b) {
        assert forall|i: u64| bit_set(y, i) implies bit_set(x, i) by {
            assert(x & y == y && i < 64 && (y >> i) & 1 == 1 ==> (x >> i) & 1 == 1)
                by (bit_vector);
        }
    }
    if !a.spec_contains(b) {
        let z = y & !x;
        assert(x & y != y ==> y & !x != 0) by (bit_vector);
        lemma_nonzero_has_bit(z);
        let i = choose|i: u64| bit_set(z, i);
        assert(((y & !x) >> i) & 1 == 1 ==> ((y >> i) & 1 == 1 && !((x >> i) & 1 == 1)))
            by (bit_vector);
        assert(bit_set(y, i) && !bit_set(x, i));
    }
}

/// The contains relation is reflexive: every mask covers itself.
pub proof fn lemma_contains_reflexive(a: Flags)
    ensures
        a.spec_contains(a),
{
    let x = a.0;
    assert(x & x == x) by (bit_vector);
}

/// The contains relation is transitive.
pub proof fn lemma_contains_transitive(a: Flags, b: Flags, c: Flags)
    requires
        a.spec_contains(b),
        b.spec_contains(c),
    ensures
        a.spec_contains(c),
{
    let x = a.0;
    let y = b.0;
    let z = c.0;
    assert(x & y == y && y & z == z ==> x & z == z) by (bit_vector);
}

} // verus!
