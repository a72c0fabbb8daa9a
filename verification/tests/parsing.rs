use client_addr::{parse_address, Address, Ipv4Address, Ipv6Address};

fn v4(a: u8, b: u8, c: u8, d: u8) -> Option<Address> {
    Some(Address::V4(Ipv4Address(a, b, c, d)))
}

fn v6(s: [u16; 8]) -> Option<Address> {
    Some(Address::V6(Ipv6Address(s[0], s[1], s[2], s[3], s[4], s[5], s[6], s[7])))
}

#[test]
fn parses_dotted_ipv4() {
    assert_eq!(parse_address("127.0.0.1"), v4(127, 0, 0, 1));
    assert_eq!(parse_address("0.0.0.0"), v4(0, 0, 0, 0));
    assert_eq!(parse_address("255.255.255.255"), v4(255, 255, 255, 255));
    assert_eq!(parse_address("203.0.113.5"), v4(203, 0, 113, 5));
    assert_eq!(parse_address("8.8.8.8"), v4(8, 8, 8, 8));
    assert_eq!(parse_address("192.168.1.10"), v4(192, 168, 1, 10));
    assert_eq!(parse_address("1.20.199.200"), v4(1, 20, 199, 200));
}

#[test]
fn rejects_octets_out_of_range_or_with_leading_zero() {
    assert_eq!(parse_address("256.0.0.1"), None);
    assert_eq!(parse_address("1.2.3.300"), None);
    assert_eq!(parse_address("1.2.3.1000"), None);
    assert_eq!(parse_address("01.2.3.4"), None);
    assert_eq!(parse_address("1.2.3.04"), None);
    assert_eq!(parse_address("00.0.0.0"), None);
    assert_eq!(parse_address("1.2.3.0255"), None);
}

#[test]
fn rejects_ipv4_with_wrong_shape() {
    assert_eq!(parse_address(""), None);
    assert_eq!(parse_address("1.2.3"), None);
    assert_eq!(parse_address("1.2.3.4.5"), None);
    assert_eq!(parse_address("1..2.3"), None);
    assert_eq!(parse_address(".1.2.3.4"), None);
    assert_eq!(parse_address("1.2.3.4."), None);
    assert_eq!(parse_address("1.2.3.4 "), None);
    assert_eq!(parse_address(" 1.2.3.4"), None);
    assert_eq!(parse_address("1.2.3.a"), None);
    assert_eq!(parse_address("1.2.3.-4"), None);
    assert_eq!(parse_address("1.2.3.+4"), None);
    assert_eq!(parse_address("not-an-ip"), None);
    assert_eq!(parse_address("1.2.3.4:80"), None);
    assert_eq!(parse_address("１.2.3.4"), None);
}

#[test]
fn parses_full_ipv6() {
    assert_eq!(parse_address("1:2:3:4:5:6:7:8"), v6([1, 2, 3, 4, 5, 6, 7, 8]));
    assert_eq!(
        parse_address("2001:0db8:0000:0000:0000:ff00:0042:8329"),
        v6([0x2001, 0x0DB8, 0, 0, 0, 0xFF00, 0x42, 0x8329])
    );
    assert_eq!(
        parse_address("FFFF:ffff:FfFf:0:00:000:0000:AbCd"),
        v6([0xFFFF, 0xFFFF, 0xFFFF, 0, 0, 0, 0, 0xABCD])
    );
}

#[test]
fn parses_compressed_ipv6() {
    assert_eq!(parse_address("::"), v6([0, 0, 0, 0, 0, 0, 0, 0]));
    assert_eq!(parse_address("::1"), v6([0, 0, 0, 0, 0, 0, 0, 1]));
    assert_eq!(parse_address("1::"), v6([1, 0, 0, 0, 0, 0, 0, 0]));
    assert_eq!(parse_address("2001:db8::1"), v6([0x2001, 0xDB8, 0, 0, 0, 0, 0, 1]));
    assert_eq!(parse_address("1::8"), v6([1, 0, 0, 0, 0, 0, 0, 8]));
    assert_eq!(parse_address("1:2::7:8"), v6([1, 2, 0, 0, 0, 0, 7, 8]));
    assert_eq!(parse_address("fe80::AbCd"), v6([0xFE80, 0, 0, 0, 0, 0, 0, 0xABCD]));
    assert_eq!(parse_address("1:2:3:4:5:6:7::"), v6([1, 2, 3, 4, 5, 6, 7, 0]));
    assert_eq!(parse_address("::2:3:4:5:6:7:8"), v6([0, 2, 3, 4, 5, 6, 7, 8]));
    assert_eq!(parse_address("1:2:3::5:6:7:8"), v6([1, 2, 3, 0, 5, 6, 7, 8]));
}

#[test]
fn parses_ipv6_with_ipv4_tail() {
    assert_eq!(parse_address("::ffff:1.2.3.4"), v6([0, 0, 0, 0, 0, 0xFFFF, 0x0102, 0x0304]));
    assert_eq!(parse_address("::1.2.3.4"), v6([0, 0, 0, 0, 0, 0, 0x0102, 0x0304]));
    assert_eq!(
        parse_address("1:2:3:4:5:6:192.168.255.1"),
        v6([1, 2, 3, 4, 5, 6, 0xC0A8, 0xFF01])
    );
    assert_eq!(parse_address("1:2:3:4:5::1.2.3.4"), v6([1, 2, 3, 4, 5, 0, 0x0102, 0x0304]));
    assert_eq!(parse_address("64:ff9b::10.0.0.1"), v6([0x64, 0xFF9B, 0, 0, 0, 0, 0x0A00, 1]));
}

#[test]
fn rejects_malformed_ipv6() {
    assert_eq!(parse_address(":"), None);
    assert_eq!(parse_address(":1"), None);
    assert_eq!(parse_address("1:"), None);
    assert_eq!(parse_address(":::"), None);
    assert_eq!(parse_address("1:::2"), None);
    assert_eq!(parse_address("1::2::3"), None);
    assert_eq!(parse_address("12345::"), None);
    assert_eq!(parse_address("::12345"), None);
    assert_eq!(parse_address("g::"), None);
    assert_eq!(parse_address("1:2:3:4:5:6:7"), None);
    assert_eq!(parse_address("1:2:3:4:5:6:7:8:9"), None);
    assert_eq!(parse_address("1:2:3:4:5:6:7:8::"), None);
    assert_eq!(parse_address("::1:2:3:4:5:6:7:8"), None);
    assert_eq!(parse_address("1:2:3:4:5:6:7::8"), None);
    assert_eq!(parse_address("1:2:3:4::5:6:7:8"), None);
    assert_eq!(parse_address("fe80::1%eth0"), None);
    assert_eq!(parse_address("[::1]"), None);
    assert_eq!(parse_address("::1 "), None);
    assert_eq!(parse_address(" ::1"), None);
}

#[test]
fn rejects_misplaced_ipv4_tail() {
    assert_eq!(parse_address("1.2.3.4::"), None);
    assert_eq!(parse_address("1.2.3.4::1"), None);
    assert_eq!(parse_address("::1.2.3.4:5"), None);
    assert_eq!(parse_address("::1.2.3"), None);
    assert_eq!(parse_address("::1.2.3.256"), None);
    assert_eq!(parse_address("::01.2.3.4"), None);
    assert_eq!(parse_address("1:2:3:4:5:6:7:1.2.3.4"), None);
    assert_eq!(parse_address("1:2:3:4:5:1.2.3.4"), None);
    assert_eq!(parse_address("1:2:3:4:5:6::1.2.3.4"), None);
    assert_eq!(parse_address("1:2:1.2.3.4"), None);
}

fn groups(n: usize) -> String {
    vec!["a"; n].join(":")
}

#[test]
fn compressed_ipv6_holds_at_most_seven_groups() {
    for head in 0..10usize {
        for tail in 0..10usize {
            let parsed = parse_address(&format!("{}::{}", groups(head), groups(tail)));
            if head + tail <= 7 {
                let mut s = [0u16; 8];
                for slot in s.iter_mut().take(head) {
                    *slot = 0xA;
                }
                for slot in s.iter_mut().skip(8 - tail) {
                    *slot = 0xA;
                }
                assert_eq!(parsed, v6(s));
            } else {
                assert_eq!(parsed, None);
            }
        }
    }
}

#[test]
fn full_ipv6_holds_exactly_eight_groups() {
    for n in 1..12usize {
        let parsed = parse_address(&groups(n));
        if n == 8 {
            assert_eq!(parsed, v6([0xA; 8]));
        } else {
            assert_eq!(parsed, None);
        }
        let with_tail = parse_address(&format!("{}:1.2.3.4", groups(n)));
        if n == 6 {
            assert_eq!(with_tail, v6([0xA, 0xA, 0xA, 0xA, 0xA, 0xA, 0x0102, 0x0304]));
        } else {
            assert_eq!(with_tail, None);
        }
    }
}

#[test]
fn ipv4_tail_counts_as_two_groups() {
    for head in 0..8usize {
        let parsed = parse_address(&format!("{}::1.2.3.4", groups(head)));
        if head + 2 <= 7 {
            let mut s = [0u16; 8];
            for slot in s.iter_mut().take(head) {
                *slot = 0xA;
            }
            s[6] = 0x0102;
            s[7] = 0x0304;
            assert_eq!(parsed, v6(s));
        } else {
            assert_eq!(parsed, None);
        }
    }
}
