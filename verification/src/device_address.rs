//! The 48-bit device address and the kind of address that it is.

use vstd::prelude::*;

verus! {

/// Number of octets in a device address.
pub const ADDR_LEN: usize = 6;

/// The kinds of random device address.
#[derive(Clone, Copy, Debug, PartialEq, Eq, Structural)]
pub enum AddrKind {
    Static,
    PrivateNonResolvable,
    PrivateResolvable,
    /// The pattern that stands for none of the kinds above.
    Unknown,
}

/// A device address: six octets, the least significant first.
pub struct Addr {
    r: [u8; 6],
}

impl View for Addr {
    type V = Seq<u8>;

    closed spec fn view(&self) -> Seq<u8> {
        self.r@
    }
}

/// The kind that the most significant octet of an address stands for: its
/// two low bits decide.
pub open spec fn kind_of_top_octet(top: u8) -> AddrKind {
    let low = top & 0b11;
    if low == 0b11 {
        AddrKind::Static
    } else if low == 0b00 {
        AddrKind::PrivateNonResolvable
    } else if low == 0b10 {
        AddrKind::PrivateResolvable
    } else {
        AddrKind::Unknown
    }
}

impl Addr {
    /// The kind of this address.
    pub open spec fn kind_spec(&self) -> AddrKind {
        kind_of_top_octet(self@[ADDR_LEN - 1])
    }

    /// Every address has six octets.
    pub proof fn lemma_has_six_octets(&self)
        ensures
            self@.len() == ADDR_LEN,
    {
    }

    /// The address made of the six octets of `r`, in their order.
    pub fn from_bytes(r: &[u8]) -> (addr: Self)
        requires
            r@.len() == ADDR_LEN,
        ensures
            addr@ == r@,
    {
        let addr = Addr { r: [r[0], r[1], r[2], r[3], r[4], r[5]] };
        assert(addr.r@ =~= r@);
        addr
    }

    /// Classifies the address by the two low bits of its most significant
    /// octet.
    pub fn kind(&self) -> (kind: AddrKind)
        ensures
            kind == self.kind_spec(),
    {
        let top: u8 = self.r[5];
        let low: u8 = top & 0b11;
        assert(low == 0 || low == 1 || low == 2 || low == 3) by (bit_vector)
            requires
                low == top & 0b11,
        ;
        if low == 0b11 {
            AddrKind::Static
        } else if low == 0b00 {
            AddrKind::PrivateNonResolvable
        } else if low == 0b10 {
            AddrKind::PrivateResolvable
        } else {
            AddrKind::Unknown
        }
    }
}

/// Two addresses whose most significant octets agree in their two low bits
/// are of the same kind, whatever their other 46 bits are.
pub proof fn lemma_kind_ignores_other_bits(a: Addr, b: Addr)
    requires
        a@[ADDR_LEN - 1] & 0b11 == b@[ADDR_LEN - 1] & 0b11,
    ensures
        a.kind_spec() == b.kind_spec(),
{
}

/// Each of the four patterns of the two low bits of the most significant
/// octet stands for one kind.
pub proof fn lemma_kind_by_pattern(a: Addr)
    ensures
        a@[ADDR_LEN - 1] & 0b11 == 0b11 <==> a.kind_spec() == AddrKind::Static,
        a@[ADDR_LEN - 1] & 0b11 == 0b00 <==> a.kind_spec() == AddrKind::PrivateNonResolvable,
        a@[ADDR_LEN - 1] & 0b11 == 0b10 <==> a.kind_spec() == AddrKind::PrivateResolvable,
        a@[ADDR_LEN - 1] & 0b11 == 0b01 <==> a.kind_spec() == AddrKind::Unknown,
{
    let top = a@[ADDR_LEN - 1];
    assert(top & 0b11 == 0 || top & 0b11 == 1 || top & 0b11 == 2 || top & 0b11 == 3)
        by (bit_vector);
}

} // verus!
