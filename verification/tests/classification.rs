use client_addr::classifier::{is_local_ipv4, is_local_ipv6};
use client_addr::{is_local, Address, Ipv4Address, Ipv6Address};

fn v4(a: u8, b: u8, c: u8, d: u8) -> Address {
    Address::V4(Ipv4Address(a, b, c, d))
}

fn v6(first: u16, second: u16, last: u16) -> Address {
    Address::V6(Ipv6Address(first, second, 0, 0, 0, 0, 0, last))
}

#[test]
fn private_ipv4_networks_are_local() {
    assert!(is_local(&v4(10, 0, 0, 0)));
    assert!(is_local(&v4(10, 255, 255, 255)));
    assert!(is_local(&v4(172, 16, 0, 0)));
    assert!(is_local(&v4(172, 31, 255, 255)));
    assert!(is_local(&v4(192, 168, 0, 0)));
    assert!(is_local(&v4(192, 168, 255, 255)));
}

#[test]
fn neighbours_of_private_ipv4_networks_are_public() {
    assert!(!is_local(&v4(9, 255, 255, 255)));
    assert!(!is_local(&v4(11, 0, 0, 0)));
    assert!(!is_local(&v4(172, 15, 255, 255)));
    assert!(!is_local(&v4(172, 32, 0, 0)));
    assert!(!is_local(&v4(192, 167, 255, 255)));
    assert!(!is_local(&v4(192, 169, 0, 0)));
}

#[test]
fn loopback_and_link_local_ipv4_are_local() {
    assert!(is_local(&v4(127, 0, 0, 1)));
    assert!(is_local(&v4(127, 255, 255, 255)));
    assert!(is_local(&v4(169, 254, 0, 0)));
    assert!(is_local(&v4(169, 254, 255, 255)));
    assert!(!is_local(&v4(126, 255, 255, 255)));
    assert!(!is_local(&v4(128, 0, 0, 0)));
    assert!(!is_local(&v4(169, 253, 255, 255)));
    assert!(!is_local(&v4(169, 255, 0, 0)));
}

#[test]
fn documentation_ipv4_ranges_are_local() {
    assert!(is_local(&v4(192, 0, 2, 0)));
    assert!(is_local(&v4(192, 0, 2, 255)));
    assert!(is_local(&v4(198, 51, 100, 7)));
    assert!(is_local(&v4(203, 0, 113, 5)));
    assert!(!is_local(&v4(192, 0, 1, 255)));
    assert!(!is_local(&v4(192, 0, 3, 0)));
    assert!(!is_local(&v4(198, 51, 99, 255)));
    assert!(!is_local(&v4(198, 51, 101, 0)));
    assert!(!is_local(&v4(203, 0, 112, 255)));
    assert!(!is_local(&v4(203, 0, 114, 0)));
}

#[test]
fn broadcast_and_unspecified_ipv4_are_local() {
    assert!(is_local(&v4(255, 255, 255, 255)));
    assert!(is_local(&v4(0, 0, 0, 0)));
    assert!(!is_local(&v4(255, 255, 255, 254)));
    assert!(!is_local(&v4(0, 0, 0, 1)));
    assert!(!is_local(&v4(1, 0, 0, 0)));
}

#[test]
fn public_ipv4_addresses_are_not_local() {
    assert!(!is_local(&v4(8, 8, 8, 8)));
    assert!(!is_local(&v4(1, 1, 1, 1)));
    assert!(!is_local(&v4(224, 0, 0, 1)));
    assert!(!is_local_ipv4(&Ipv4Address(93, 184, 216, 34)));
}

#[test]
fn every_ipv4_address_of_a_local_block_is_local() {
    for c in 0..=255u8 {
        for d in [0u8, 1, 127, 254, 255] {
            assert!(is_local(&v4(10, c, c, d)));
            assert!(is_local(&v4(192, 168, c, d)));
            assert!(is_local(&v4(169, 254, c, d)));
            assert!(is_local(&v4(127, c, d, d)));
        }
        assert!(is_local(&v4(192, 0, 2, c)));
        assert!(is_local(&v4(198, 51, 100, c)));
        assert!(is_local(&v4(203, 0, 113, c)));
    }
    for b in 16..=31u8 {
        assert!(is_local(&v4(172, b, 0, 0)));
        assert!(is_local(&v4(172, b, 255, 255)));
    }
}

#[test]
fn ipv6_loopback_and_unspecified_are_local() {
    assert!(is_local(&v6(0, 0, 1)));
    assert!(is_local(&v6(0, 0, 0)));
    assert!(!is_local(&v6(0, 0, 2)));
    assert!(!is_local(&Address::V6(Ipv6Address(0, 0, 0, 0, 0, 0, 1, 1))));
    assert!(!is_local(&Address::V6(Ipv6Address(0, 1, 0, 0, 0, 0, 0, 0))));
}

#[test]
fn ipv6_link_local_and_site_local_are_local() {
    assert!(is_local(&v6(0xFE80, 0, 1)));
    assert!(is_local(&v6(0xFEBF, 0xFFFF, 1)));
    assert!(is_local(&v6(0xFEC0, 0, 1)));
    assert!(is_local(&v6(0xFEFF, 0, 1)));
    assert!(!is_local(&v6(0xFE7F, 0, 1)));
    assert!(!is_local(&v6(0xFE00, 0, 1)));
}

#[test]
fn ipv6_unique_local_is_local() {
    assert!(is_local(&v6(0xFC00, 0, 1)));
    assert!(is_local(&v6(0xFD12, 0x3456, 1)));
    assert!(is_local(&v6(0xFDFF, 0xFFFF, 0xFFFF)));
    assert!(!is_local(&v6(0xFBFF, 0, 1)));
}

#[test]
fn ipv6_documentation_range_is_local() {
    assert!(is_local(&v6(0x2001, 0x0DB8, 1)));
    assert!(is_local(&Address::V6(Ipv6Address(
        0x2001, 0x0DB8, 0xFFFF, 0xFFFF, 0xFFFF, 0xFFFF, 0xFFFF, 0xFFFF
    ))));
    assert!(!is_local(&v6(0x2001, 0x0DB9, 1)));
    assert!(!is_local(&v6(0x2001, 0x0DB7, 1)));
    assert!(!is_local(&v6(0x2002, 0x0DB8, 1)));
    assert!(!is_local(&v6(0x2001, 0x4860, 0x8888)));
}

#[test]
fn ipv6_multicast_is_local_unless_global() {
    assert!(!is_local(&v6(0xFF0E, 0, 1)));
    assert!(!is_local(&v6(0xFF1E, 0, 1)));
    assert!(!is_local(&v6(0xFFFE, 0, 1)));
    assert!(is_local(&v6(0xFF02, 0, 1)));
    assert!(is_local(&v6(0xFF05, 0, 2)));
    assert!(is_local(&v6(0xFF00, 0, 0)));
    assert!(is_local(&v6(0xFF0F, 0, 0)));
    assert!(is_local(&v6(0xFF0D, 0, 0)));
    for scope in 0..16u16 {
        assert_eq!(
            is_local_ipv6(&Ipv6Address(0xFF00 + scope, 0, 0, 0, 0, 0, 0, 1)),
            scope != 14
        );
    }
}

#[test]
fn ipv4_mapped_ipv6_is_classified_as_ipv6() {
    // `::ffff:10.0.0.1` is judged by the rules for IPv6, which name no such range.
    assert!(!is_local(&Address::V6(Ipv6Address(0, 0, 0, 0, 0, 0xFFFF, 0x0A00, 0x0001))));
}
