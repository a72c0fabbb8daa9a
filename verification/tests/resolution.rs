use client_addr::{
    resolve, resolve_by_headers, resolve_real, Address, ClientAddr, ClientRealAddr, Ipv4Address,
};

fn v4(a: u8, b: u8, c: u8, d: u8) -> Address {
    Address::V4(Ipv4Address(a, b, c, d))
}

#[test]
fn local_peer_is_the_fallback() {
    let peer = v4(198, 51, 100, 7);
    assert_eq!(resolve(Some(peer), None, None), Some(peer));
}

#[test]
fn nothing_known_resolves_to_nothing() {
    assert_eq!(resolve(None, None, None), None);
    assert_eq!(ClientAddr::from_parts(None, None, None), None);
}

#[test]
fn walked_chain_comes_before_everything_else() {
    let peer = v4(9, 9, 9, 9);
    let real = v4(1, 1, 1, 1);
    assert_eq!(resolve(Some(peer), Some("8.8.8.8, 10.0.0.1"), Some(real)), Some(v4(8, 8, 8, 8)));
    assert_eq!(resolve(Some(peer), Some("10.0.0.1"), Some(real)), Some(v4(10, 0, 0, 1)));
    assert_eq!(resolve(None, Some("10.0.0.1"), None), Some(v4(10, 0, 0, 1)));
}

#[test]
fn public_peer_does_not_override_the_chain() {
    let peer = v4(9, 9, 9, 9);
    assert_eq!(resolve(Some(peer), Some("8.8.4.4"), None), Some(v4(8, 8, 4, 4)));
}

#[test]
fn vouched_address_comes_before_the_peer() {
    let peer = v4(9, 9, 9, 9);
    let real = v4(1, 1, 1, 1);
    assert_eq!(resolve(Some(peer), None, Some(real)), Some(real));
    assert_eq!(resolve(Some(peer), Some("garbage"), Some(real)), Some(real));
    assert_eq!(resolve(Some(peer), Some(""), Some(real)), Some(real));
    assert_eq!(resolve(None, None, Some(real)), Some(real));
}

#[test]
fn unreadable_header_falls_back_to_the_peer() {
    let peer = v4(10, 0, 0, 9);
    assert_eq!(resolve(Some(peer), Some("8.8.8.8, garbage"), None), Some(peer));
    assert_eq!(resolve(Some(peer), Some(""), None), Some(peer));
    assert_eq!(resolve(None, Some("garbage"), None), None);
}

#[test]
fn resolving_twice_gives_the_same_answer() {
    let peer = Some(v4(10, 0, 0, 9));
    let real = Some(v4(1, 1, 1, 1));
    for header in [None, Some(""), Some("8.8.8.8, 10.0.0.1"), Some("x, 10.0.0.1"), Some("x")] {
        assert_eq!(resolve(peer, header, real), resolve(peer, header, real));
        assert_eq!(resolve(peer, header, None), resolve(peer, header, None));
        assert_eq!(resolve(None, header, None), resolve(None, header, None));
    }
}

#[test]
fn client_addr_wraps_the_resolved_address() {
    assert_eq!(
        ClientAddr::from_parts(Some(v4(10, 0, 0, 9)), Some("8.8.8.8, 10.0.0.1"), None),
        Some(ClientAddr { ip: v4(8, 8, 8, 8) })
    );
    assert_eq!(
        ClientAddr::from_parts(Some(v4(198, 51, 100, 7)), None, None),
        Some(ClientAddr { ip: v4(198, 51, 100, 7) })
    );
}

#[test]
fn real_addr_prefers_vouched_address() {
    let peer = v4(9, 9, 9, 9);
    let real = v4(1, 1, 1, 1);
    assert_eq!(resolve_real(Some(peer), Some("8.8.8.8"), Some(real)), Some(real));
    assert_eq!(
        ClientRealAddr::from_parts(Some(peer), Some("8.8.8.8"), Some(real)),
        Some(ClientRealAddr { ip: real })
    );
}

#[test]
fn real_addr_reads_the_first_entry_only() {
    let peer = v4(9, 9, 9, 9);
    assert_eq!(resolve_real(Some(peer), Some(" 10.0.0.1 , 8.8.8.8"), None), Some(v4(10, 0, 0, 1)));
    assert_eq!(resolve_real(Some(peer), Some("8.8.8.8"), None), Some(v4(8, 8, 8, 8)));
    assert_eq!(resolve_real(Some(peer), Some("garbage, 8.8.8.8"), None), Some(peer));
    assert_eq!(resolve_real(Some(peer), Some(""), None), Some(peer));
    assert_eq!(resolve_real(Some(peer), None, None), Some(peer));
    assert_eq!(resolve_real(None, Some("garbage"), None), None);
    assert_eq!(resolve_real(None, None, None), None);
    assert_eq!(ClientRealAddr::from_parts(None, None, None), None);
}

#[test]
fn single_proxy_rule_trusts_a_public_peer() {
    let peer = v4(9, 9, 9, 9);
    assert_eq!(resolve_by_headers(Some(peer), Some("1.1.1.1"), Some("8.8.8.8")), Some(peer));
}

#[test]
fn single_proxy_rule_reads_headers_behind_a_local_peer() {
    let peer = v4(10, 0, 0, 9);
    assert_eq!(
        resolve_by_headers(Some(peer), Some("1.1.1.1"), Some("8.8.8.8")),
        Some(v4(1, 1, 1, 1))
    );
    assert_eq!(resolve_by_headers(Some(peer), None, Some("8.8.8.8")), Some(v4(8, 8, 8, 8)));
    assert_eq!(resolve_by_headers(None, None, Some("8.8.8.8")), Some(v4(8, 8, 8, 8)));
    assert_eq!(resolve_by_headers(Some(peer), None, None), Some(peer));
    assert_eq!(resolve_by_headers(None, None, None), None);
}

#[test]
fn single_proxy_rule_does_not_fall_back_from_an_unreadable_header() {
    let peer = v4(10, 0, 0, 9);
    assert_eq!(resolve_by_headers(Some(peer), Some("garbage"), Some("8.8.8.8")), None);
    assert_eq!(resolve_by_headers(Some(peer), None, Some("8.8.8.8, 10.0.0.1")), None);
    assert_eq!(resolve_by_headers(Some(peer), None, Some(" 8.8.8.8")), None);
    assert_eq!(
        ClientAddr::from_headers(Some(peer), Some("1.1.1.1"), None),
        Some(ClientAddr { ip: v4(1, 1, 1, 1) })
    );
}
