//! IP addresses as plain values.

use vstd::prelude::*;

verus! {

/// An IPv4 address: its four octets, most significant first.
#[derive(Clone, Copy, Debug, PartialEq, Eq, Structural, PartialOrd, Ord, Hash)]
pub struct Ipv4Address(pub u8, pub u8, pub u8, pub u8);

/// An IPv6 address: its eight 16-bit segments, most significant first.
#[derive(Clone, Copy, Debug, PartialEq, Eq, Structural, PartialOrd, Ord, Hash)]
pub struct Ipv6Address(
    pub u16,
    pub u16,
    pub u16,
    pub u16,
    pub u16,
    pub u16,
    pub u16,
    pub u16,
);

/// An IP address of either version.
#[derive(Clone, Copy, Debug, PartialEq, Eq, Structural, PartialOrd, Ord, Hash)]
pub enum Address {
    V4(Ipv4Address),
    V6(Ipv6Address),
}

/// The 16-bit segment whose high byte is `hi` and whose low byte is `lo`.
pub open spec fn join_bytes(hi: u8, lo: u8) -> int {
    hi * 256 + lo
}

impl Ipv4Address {
    /// The octets in order.
    pub open spec fn octets(self) -> Seq<u8> {
        seq![self.0, self.1, self.2, self.3]
    }

    /// The address read as one 32-bit number.
    pub open spec fn value(self) -> int {
        self.0 * 0x100_0000 + self.1 * 0x1_0000 + self.2 * 0x100 + self.3
    }

    /// The address with the given octets; `o` has four of them.
    pub open spec fn from_octets(o: Seq<u8>) -> Ipv4Address {
        Ipv4Address(o[0], o[1], o[2], o[3])
    }

    /// The IPv4-mapped IPv6 address `::ffff:a.b.c.d` of `a.b.c.d`.
    pub open spec fn mapped(self) -> Ipv6Address {
        Ipv6Address(
            0,
            0,
            0,
            0,
            0,
            0xFFFF,
            join_bytes(self.0, self.1) as u16,
            join_bytes(self.2, self.3) as u16,
        )
    }

    /// Computes [`Ipv4Address::mapped`].
    pub fn to_ipv6_mapped(&self) -> (r: Ipv6Address)
        ensures
            r == self.mapped(),
            r.embedded() == Some(*self),
    {
        let hi: u16 = pack(self.0, self.1);
        let lo: u16 = pack(self.2, self.3);
        Ipv6Address(0, 0, 0, 0, 0, 0xFFFF, hi, lo)
    }
}

impl Ipv6Address {
    /// The segments in order.
    pub open spec fn segments(self) -> Seq<u16> {
        seq![self.0, self.1, self.2, self.3, self.4, self.5, self.6, self.7]
    }

    /// The address with the given segments; `s` has eight of them.
    pub open spec fn from_segments(s: Seq<u16>) -> Ipv6Address {
        Ipv6Address(s[0], s[1], s[2], s[3], s[4], s[5], s[6], s[7])
    }

    /// The IPv4 address in the last 32 bits.
    pub open spec fn low_ipv4(self) -> Ipv4Address {
        Ipv4Address(
            (self.6 / 256) as u8,
            (self.6 % 256) as u8,
            (self.7 / 256) as u8,
            (self.7 % 256) as u8,
        )
    }

    /// Whether this is an IPv4-mapped address, `::ffff:a.b.c.d`.
    pub open spec fn is_ipv4_mapped(self) -> bool {
        self.0 == 0 && self.1 == 0 && self.2 == 0 && self.3 == 0 && self.4 == 0 && self.5
            == 0xFFFF
    }

    /// Whether this is an IPv4-compatible address, `::a.b.c.d`.
    pub open spec fn is_ipv4_compatible(self) -> bool {
        self.0 == 0 && self.1 == 0 && self.2 == 0 && self.3 == 0 && self.4 == 0 && self.5 == 0
    }

    /// The IPv4 address that an IPv4-mapped or IPv4-compatible address
    /// carries; no other address carries one.
    pub open spec fn embedded(self) -> Option<Ipv4Address> {
        if self.is_ipv4_mapped() || self.is_ipv4_compatible() {
            Some(self.low_ipv4())
        } else {
            None
        }
    }

    /// Computes [`Ipv6Address::embedded`].
    pub fn to_ipv4(&self) -> (r: Option<Ipv4Address>)
        ensures
            r == self.embedded(),
    {
        if self.0 == 0 && self.1 == 0 && self.2 == 0 && self.3 == 0 && self.4 == 0 && (self.5 == 0
            || self.5 == 0xFFFF) {
            Some(self.unpack_low())
        } else {
            None
        }
    }

    /// Computes [`Ipv6Address::low_ipv4`].
    pub fn unpack_low(&self) -> (r: Ipv4Address)
        ensures
            r == self.low_ipv4(),
    {
        Ipv4Address(
            (self.6 / 256) as u8,
            (self.6 % 256) as u8,
            (self.7 / 256) as u8,
            (self.7 % 256) as u8,
        )
    }
}

/// Puts two bytes together into one segment, `hi` above `lo`.
pub fn pack(hi: u8, lo: u8) -> (r: u16)
    ensures
        r == join_bytes(hi, lo),
        r / 256 == hi,
        r % 256 == lo,
{
    (hi as u16) * 256 + (lo as u16)
}

impl Address {
    /// The IPv4 address that this address is or carries.
    pub open spec fn ipv4(self) -> Option<Ipv4Address> {
        match self {
            Address::V4(a) => Some(a),
            Address::V6(a) => a.embedded(),
        }
    }

    /// This address in IPv6: itself, or the IPv4-mapped form of an IPv4
    /// address.
    pub open spec fn ipv6(self) -> Ipv6Address {
        match self {
            Address::V4(a) => a.mapped(),
            Address::V6(a) => a,
        }
    }

    /// Computes [`Address::ipv4`].
    pub fn to_ipv4(&self) -> (r: Option<Ipv4Address>)
        ensures
            r == self.ipv4(),
    {
        match self {
            Address::V4(a) => Some(*a),
            Address::V6(a) => a.to_ipv4(),
        }
    }

    /// Computes [`Address::ipv6`].
    pub fn to_ipv6(&self) -> (r: Ipv6Address)
        ensures
            r == self.ipv6(),
    {
        match self {
            Address::V4(a) => a.to_ipv6_mapped(),
            Address::V6(a) => *a,
        }
    }
}

/// Mapping an IPv4 address into IPv6 loses nothing: the mapped address
/// carries the address it was made from.
pub proof fn lemma_mapped_round_trip(a: Ipv4Address)
    ensures
        a.mapped().is_ipv4_mapped(),
        a.mapped().embedded() == Some(a),
        Address::V4(a).ipv6().embedded() == Address::V4(a).ipv4(),
{
}

} // verus!
