//! Which addresses count as local, that is, cannot be routed on the public
//! internet.
//!
//! The ranges are a policy of trust, wider than any one standard's notion of
//! a private address: documentation ranges and the broadcast address are
//! local too.

use vstd::prelude::*;
use crate::address::{Address, Ipv4Address, Ipv6Address};

verus! {

/// The scope value of a multicast address that is routed globally.
pub const GLOBAL_MULTICAST_SCOPE: u16 = 14;

/// Whether an IPv4 address is local.
pub open spec fn ipv4_is_local(a: Ipv4Address) -> bool {
    // private networks
    ||| a.0 == 10
    ||| (a.0 == 172 && 16 <= a.1 <= 31)
    ||| (a.0 == 192 && a.1 == 168)
    // loopback
    ||| a.0 == 127
    // link-local
    ||| (a.0 == 169 && a.1 == 254)
    // broadcast
    ||| (a.0 == 255 && a.1 == 255 && a.2 == 255 && a.3 == 255)
    // documentation
    ||| (a.0 == 192 && a.1 == 0 && a.2 == 2)
    ||| (a.0 == 198 && a.1 == 51 && a.2 == 100)
    ||| (a.0 == 203 && a.1 == 0 && a.2 == 113)
    // unspecified
    ||| (a.0 == 0 && a.1 == 0 && a.2 == 0 && a.3 == 0)
}

/// Whether an IPv6 address is a multicast address, `ff00::/8`.
pub open spec fn ipv6_is_multicast(a: Ipv6Address) -> bool {
    a.0 >= 0xFF00
}

/// The scope of a multicast address: the low four bits of its first segment.
pub open spec fn ipv6_multicast_scope(a: Ipv6Address) -> int {
    a.0 as int % 16
}

/// Whether an IPv6 address that is no multicast address is local.
pub open spec fn ipv6_unicast_is_local(a: Ipv6Address) -> bool {
    // loopback, `::1`
    ||| a == Ipv6Address(0, 0, 0, 0, 0, 0, 0, 1)
    // unspecified, `::`
    ||| a == Ipv6Address(0, 0, 0, 0, 0, 0, 0, 0)
    // link-local, `fe80::/10`
    ||| 0xFE80 <= a.0 <= 0xFEBF
    // site-local, `fec0::/10`
    ||| 0xFEC0 <= a.0 <= 0xFEFF
    // unique local, `fc00::/7`
    ||| 0xFC00 <= a.0 <= 0xFDFF
    // documentation, `2001:db8::/32`
    ||| (a.0 == 0x2001 && a.1 == 0x0DB8)
}

/// Whether an IPv6 address is local. Of the multicast addresses only those
/// of global scope are not.
pub open spec fn ipv6_is_local(a: Ipv6Address) -> bool {
    if ipv6_is_multicast(a) {
        ipv6_multicast_scope(a) != GLOBAL_MULTICAST_SCOPE
    } else {
        ipv6_unicast_is_local(a)
    }
}

/// Whether an address is local.
pub open spec fn address_is_local(a: Address) -> bool {
    match a {
        Address::V4(a) => ipv4_is_local(a),
        Address::V6(a) => ipv6_is_local(a),
    }
}

/// Decides [`ipv4_is_local`].
pub fn is_local_ipv4(a: &Ipv4Address) -> (r: bool)
    ensures
        r == ipv4_is_local(*a),
{
    a.0 == 10 || (a.0 == 172 && 16 <= a.1 && a.1 <= 31) || (a.0 == 192 && a.1 == 168) || a.0
        == 127 || (a.0 == 169 && a.1 == 254) || (a.0 == 255 && a.1 == 255 && a.2 == 255 && a.3
        == 255) || (a.0 == 192 && a.1 == 0 && a.2 == 2) || (a.0 == 198 && a.1 == 51 && a.2
        == 100) || (a.0 == 203 && a.1 == 0 && a.2 == 113) || (a.0 == 0 && a.1 == 0 && a.2 == 0
        && a.3 == 0)
}

/// Decides [`ipv6_is_local`], by masks on the first segment.
pub fn is_local_ipv6(a: &Ipv6Address) -> (r: bool)
    ensures
        r == ipv6_is_local(*a),
{
    let first: u16 = a.0;
    proof {
        lemma_first_segment_masks(first);
    }
    if first & 0xFF00 == 0xFF00 {
        first & 0x000F != GLOBAL_MULTICAST_SCOPE
    } else if a.0 == 0 && a.1 == 0 && a.2 == 0 && a.3 == 0 && a.4 == 0 && a.5 == 0 && a.6 == 0
        && (a.7 == 0 || a.7 == 1) {
        true
    } else {
        let prefix: u16 = first & 0xFFC0;
        prefix == 0xFE80 || prefix == 0xFEC0 || first & 0xFE00 == 0xFC00 || (first == 0x2001
            && a.1 == 0x0DB8)
    }
}

/// Decides [`address_is_local`].
pub fn is_local(addr: &Address) -> (r: bool)
    ensures
        r == address_is_local(*addr),
{
    match addr {
        Address::V4(a) => is_local_ipv4(a),
        Address::V6(a) => is_local_ipv6(a),
    }
}

/// What the masks on an IPv6 address's first segment say of its value.
pub proof fn lemma_first_segment_masks(first: u16)
    ensures
        (first & 0xFF00 == 0xFF00) <==> first >= 0xFF00,
        (first & 0x000F) == first % 16,
        (first & 0xFFC0 == 0xFE80) <==> 0xFE80 <= first <= 0xFEBF,
        (first & 0xFFC0 == 0xFEC0) <==> 0xFEC0 <= first <= 0xFEFF,
        (first & 0xFE00 == 0xFC00) <==> 0xFC00 <= first <= 0xFDFF,
{
    assert((first & 0xFF00 == 0xFF00) <==> first >= 0xFF00) by (bit_vector);
    assert((first & 0x000F) == first % 16) by (bit_vector);
    assert((first & 0xFFC0 == 0xFE80) <==> 0xFE80 <= first <= 0xFEBF) by (bit_vector);
    assert((first & 0xFFC0 == 0xFEC0) <==> 0xFEC0 <= first <= 0xFEFF) by (bit_vector);
    assert((first & 0xFE00 == 0xFC00) <==> 0xFC00 <= first <= 0xFDFF) by (bit_vector);
}

/// Whether the 32-bit number `v` lies in the block of `size` addresses that
/// starts at `base`.
pub open spec fn in_block(v: int, base: Ipv4Address, size: int) -> bool {
    base.value() <= v < base.value() + size
}

/// The local IPv4 addresses are those of the blocks `10.0.0.0/8`,
/// `172.16.0.0/12`, `192.168.0.0/16`, `127.0.0.0/8`, `169.254.0.0/16`,
/// `192.0.2.0/24`, `198.51.100.0/24` and `203.0.113.0/24`, and the two
/// addresses `0.0.0.0` and `255.255.255.255`; no other address is local.
pub proof fn lemma_ipv4_local_blocks(a: Ipv4Address)
    ensures
        ipv4_is_local(a) <==> {
            let v = a.value();
            ||| in_block(v, Ipv4Address(10, 0, 0, 0), 0x100_0000)
            ||| in_block(v, Ipv4Address(172, 16, 0, 0), 0x10_0000)
            ||| in_block(v, Ipv4Address(192, 168, 0, 0), 0x1_0000)
            ||| in_block(v, Ipv4Address(127, 0, 0, 0), 0x100_0000)
            ||| in_block(v, Ipv4Address(169, 254, 0, 0), 0x1_0000)
            ||| in_block(v, Ipv4Address(192, 0, 2, 0), 0x100)
            ||| in_block(v, Ipv4Address(198, 51, 100, 0), 0x100)
            ||| in_block(v, Ipv4Address(203, 0, 113, 0), 0x100)
            ||| v == 0
            ||| v == 0xFFFF_FFFF
        },
{
}

/// The local IPv6 addresses, by the bits of the first segment: `::1` and
/// `::` are local; so is every address whose first ten bits are those of
/// `fe80::` or of `fec0::`, every address whose first seven bits are those
/// of `fc00::`, and every address in `2001:db8::/32`; a multicast address is
/// local unless the low four bits of its first segment are 14; no other
/// address is local.
pub proof fn lemma_ipv6_local_prefixes(a: Ipv6Address)
    ensures
        a == Ipv6Address(0, 0, 0, 0, 0, 0, 0, 1) ==> ipv6_is_local(a),
        a == Ipv6Address(0, 0, 0, 0, 0, 0, 0, 0) ==> ipv6_is_local(a),
        0xFE80 <= a.0 <= 0xFEBF || 0xFEC0 <= a.0 <= 0xFEFF ==> ipv6_is_local(a),
        a.0 & 0xFE00 == 0xFC00 ==> ipv6_is_local(a),
        a.0 == 0x2001 && a.1 == 0x0DB8 ==> ipv6_is_local(a),
        a.0 & 0xFF00 == 0xFF00 ==> (ipv6_is_local(a) <==> a.0 & 0x000F != 14),
        ipv6_is_local(a) <==> {
            if a.0 & 0xFF00 == 0xFF00 {
                a.0 & 0x000F != 14
            } else {
                ||| a.segments() == seq![0u16, 0u16, 0u16, 0u16, 0u16, 0u16, 0u16, 1u16]
                ||| a.segments() == seq![0u16, 0u16, 0u16, 0u16, 0u16, 0u16, 0u16, 0u16]
                ||| a.0 & 0xFFC0 == 0xFE80
                ||| a.0 & 0xFFC0 == 0xFEC0
                ||| a.0 & 0xFE00 == 0xFC00
                ||| (a.0 == 0x2001 && a.1 == 0x0DB8)
            }
        },
{
    lemma_first_segment_masks(a.0);
    let one = seq![0u16, 0u16, 0u16, 0u16, 0u16, 0u16, 0u16, 1u16];
    let zero = seq![0u16, 0u16, 0u16, 0u16, 0u16, 0u16, 0u16, 0u16];
    lemma_segments_determine(a, Ipv6Address(0, 0, 0, 0, 0, 0, 0, 1));
    lemma_segments_determine(a, Ipv6Address(0, 0, 0, 0, 0, 0, 0, 0));
    assert(Ipv6Address(0, 0, 0, 0, 0, 0, 0, 1).segments() =~= one);
    assert(Ipv6Address(0, 0, 0, 0, 0, 0, 0, 0).segments() =~= zero);
}

/// Two IPv6 addresses with the same segments are the same address.
pub proof fn lemma_segments_determine(a: Ipv6Address, b: Ipv6Address)
    ensures
        a.segments() == b.segments() <==> a == b,
{
    if a.segments() == b.segments() {
        assert(a.segments()[0] == b.segments()[0]);
        assert(a.segments()[1] == b.segments()[1]);
        assert(a.segments()[2] == b.segments()[2]);
        assert(a.segments()[3] == b.segments()[3]);
        assert(a.segments()[4] == b.segments()[4]);
        assert(a.segments()[5] == b.segments()[5]);
        assert(a.segments()[6] == b.segments()[6]);
        assert(a.segments()[7] == b.segments()[7]);
    }
}

} // verus!
