use client_addr::{resolve_from_chain, Address, Ipv4Address, Ipv6Address};

fn v4(a: u8, b: u8, c: u8, d: u8) -> Option<Address> {
    Some(Address::V4(Ipv4Address(a, b, c, d)))
}

#[test]
fn all_local_chain_returns_earliest_entry() {
    assert_eq!(resolve_from_chain("203.0.113.5, 10.0.0.1, 192.168.1.1"), v4(203, 0, 113, 5));
}

#[test]
fn first_public_entry_from_the_end_is_returned() {
    assert_eq!(resolve_from_chain("8.8.8.8, 10.0.0.1"), v4(8, 8, 8, 8));
}

#[test]
fn entries_before_a_public_one_are_not_read() {
    assert_eq!(resolve_from_chain("not-an-ip, 8.8.8.8"), v4(8, 8, 8, 8));
}

#[test]
fn public_entry_hides_earlier_public_entries() {
    assert_eq!(resolve_from_chain("1.1.1.1, 8.8.8.8, 10.0.0.1"), v4(8, 8, 8, 8));
    assert_eq!(resolve_from_chain("1.1.1.1, 8.8.8.8"), v4(8, 8, 8, 8));
}

#[test]
fn unreadable_entry_ends_the_walk_with_what_was_found() {
    assert_eq!(resolve_from_chain("8.8.8.8, garbage, 10.0.0.1"), v4(10, 0, 0, 1));
    assert_eq!(resolve_from_chain("8.8.8.8,, 10.0.0.1, 192.168.0.1"), v4(10, 0, 0, 1));
    assert_eq!(resolve_from_chain(", 10.0.0.1"), v4(10, 0, 0, 1));
}

#[test]
fn unreadable_last_entry_yields_nothing() {
    assert_eq!(resolve_from_chain("8.8.8.8, garbage"), None);
    assert_eq!(resolve_from_chain("8.8.8.8,"), None);
    assert_eq!(resolve_from_chain(""), None);
    assert_eq!(resolve_from_chain("   "), None);
    assert_eq!(resolve_from_chain(","), None);
    assert_eq!(resolve_from_chain("unknown"), None);
}

#[test]
fn single_entry_is_returned_local_or_not() {
    assert_eq!(resolve_from_chain("8.8.8.8"), v4(8, 8, 8, 8));
    assert_eq!(resolve_from_chain("10.1.2.3"), v4(10, 1, 2, 3));
}

#[test]
fn white_space_around_entries_is_ignored() {
    assert_eq!(resolve_from_chain("  8.8.8.8  ,\t10.0.0.1\t"), v4(8, 8, 8, 8));
    assert_eq!(resolve_from_chain("8.8.8.8,10.0.0.1"), v4(8, 8, 8, 8));
    assert_eq!(resolve_from_chain("\u{3000}8.8.4.4\u{a0}"), v4(8, 8, 4, 4));
    assert_eq!(resolve_from_chain(" 8.8 .8.8 "), None);
}

#[test]
fn ipv6_entries_are_walked_too() {
    assert_eq!(
        resolve_from_chain("2001:4860:4860::8888, fe80::1, ::1"),
        Some(Address::V6(Ipv6Address(0x2001, 0x4860, 0x4860, 0, 0, 0, 0, 0x8888)))
    );
    assert_eq!(
        resolve_from_chain("fd00::5, 192.168.0.1"),
        Some(Address::V6(Ipv6Address(0xFD00, 0, 0, 0, 0, 0, 0, 5)))
    );
    assert_eq!(
        resolve_from_chain("8.8.8.8, ff0e::1, 10.0.0.1"),
        Some(Address::V6(Ipv6Address(0xFF0E, 0, 0, 0, 0, 0, 0, 1)))
    );
}
