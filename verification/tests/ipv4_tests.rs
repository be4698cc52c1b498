use netblame::ipv4::{ip_to_u32, is_private_ip, parse_dotted_quad, subnet_ips, u32_to_ip};

#[test]
fn reads_dotted_address() {
    assert_eq!(ip_to_u32("192.168.1.10"), Some(0xC0A8_010A));
    assert_eq!(ip_to_u32("0.0.0.0"), Some(0));
    assert_eq!(ip_to_u32("255.255.255.255"), Some(u32::MAX));
}

#[test]
fn skips_pieces_that_are_not_octets() {
    // Pieces that do not read as a u8 are passed over; four octets must remain.
    assert_eq!(ip_to_u32("10.x.0.0.1"), Some(0x0A00_0001));
    assert_eq!(ip_to_u32("1.2.3.256"), None);
    assert_eq!(ip_to_u32("1.2.3"), None);
    assert_eq!(ip_to_u32("1.2.3.4.5"), None);
    assert_eq!(ip_to_u32(""), None);
    assert_eq!(ip_to_u32("+1.02.3.4"), Some(0x0102_0304));
}

#[test]
fn writes_dotted_address() {
    assert_eq!(u32_to_ip(0xC0A8_010A), "192.168.1.10");
    assert_eq!(u32_to_ip(0), "0.0.0.0");
    assert_eq!(u32_to_ip(u32::MAX), "255.255.255.255");
}

#[test]
fn text_reads_back() {
    for n in [0u32, 1, 255, 256, 0x0A00_0001, 0x7F00_0001, 0xC0A8_FFFE, u32::MAX] {
        assert_eq!(ip_to_u32(&u32_to_ip(n)), Some(n));
    }
}

#[test]
fn subnet_of_a_24() {
    let ips = subnet_ips("192.168.1.77", 24);
    assert_eq!(ips.len(), 254);
    assert_eq!(ips[0], "192.168.1.1");
    assert_eq!(ips[253], "192.168.1.254");
}

#[test]
fn larger_subnets_are_cut_to_the_local_24() {
    let ips = subnet_ips("10.1.2.3", 8);
    assert_eq!(ips.len(), 254);
    assert_eq!(ips[0], "10.1.2.1");
    assert_eq!(ips[253], "10.1.2.254");
}

#[test]
fn small_subnets() {
    let ips = subnet_ips("192.168.1.77", 28);
    assert_eq!(ips.len(), 14);
    assert_eq!(ips[0], "192.168.1.65");
    assert_eq!(ips[13], "192.168.1.78");
    assert_eq!(subnet_ips("192.168.1.77", 30), vec!["192.168.1.77", "192.168.1.78"]);
    assert!(subnet_ips("192.168.1.77", 31).is_empty());
    assert!(subnet_ips("192.168.1.77", 32).is_empty());
}

#[test]
fn subnet_of_unreadable_address_is_empty() {
    assert!(subnet_ips("not an address", 24).is_empty());
}

#[test]
fn private_ranges() {
    assert!(is_private_ip("10.0.0.1"));
    assert!(is_private_ip("172.16.5.4"));
    assert!(is_private_ip("172.31.255.255"));
    assert!(!is_private_ip("172.32.0.1"));
    assert!(is_private_ip("192.168.0.1"));
    assert!(is_private_ip("127.0.0.1"));
    assert!(is_private_ip("169.254.1.1"));
    assert!(!is_private_ip("8.8.8.8"));
    assert!(!is_private_ip("example.com"));
    assert!(!is_private_ip("::1"));
    assert!(!is_private_ip("010.0.0.1"));
}

#[test]
fn dotted_quad_reads_as_std_does() {
    let cases = [
        "1.2.3.4", "0.0.0.0", "255.255.255.255", "256.1.1.1", "01.2.3.4", "0.2.3.4", "1.2.3",
        "1.2.3.4.5", "1..2.3", "+1.2.3.4", "1.2.3.4 ", " 1.2.3.4", "", "a.b.c.d", "1.2.3.04",
        "10.0.0.1", "1.2.3.-4", "192.168.001.1", "1.2.3.4\n", "٣.1.1.1",
    ];
    for c in cases {
        let expected = c.parse::<core::net::Ipv4Addr>().ok().map(u32::from);
        assert_eq!(parse_dotted_quad(c), expected, "{c:?}");
    }
}

#[test]
fn address_text_shape() {
    for n in [0u32, 9, 10, 0x0A00_0001, 0xC0A8_010A, u32::MAX] {
        let t = u32_to_ip(n);
        assert_eq!(t.matches('.').count(), 3);
        assert!(7 <= t.len() && t.len() <= 15);
    }
    assert_eq!(u32_to_ip(0).len(), 7);
    assert_eq!(u32_to_ip(u32::MAX).len(), 15);
}

#[test]
fn canonical_dotted_quads_round_trip() {
    for s in ["1.2.3.4", "0.0.0.0", "10.20.30.40", "255.255.255.255", "192.168.0.100"] {
        let n = parse_dotted_quad(s).unwrap();
        assert_eq!(ip_to_u32(s), Some(n));
        assert_eq!(u32_to_ip(n), s);
    }
}

#[test]
fn scan_sizes_and_local_address() {
    let sizes = [(25u8, 126usize), (26, 62), (27, 30), (28, 14), (29, 6), (30, 2), (31, 0), (32, 0)];
    for (p, n) in sizes {
        assert_eq!(subnet_ips("192.168.1.77", p).len(), n, "/{p}");
    }
    assert!(subnet_ips("192.168.1.77", 24).contains(&"192.168.1.77".to_string()));
    assert!(!subnet_ips("192.168.1.0", 24).contains(&"192.168.1.0".to_string()));
    assert!(!subnet_ips("192.168.1.255", 24).contains(&"192.168.1.255".to_string()));
    let ips = subnet_ips("10.0.0.9", 29);
    assert_eq!(ips, vec!["10.0.0.9", "10.0.0.10", "10.0.0.11", "10.0.0.12", "10.0.0.13", "10.0.0.14"]);
}
