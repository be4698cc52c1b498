use netblame::scan::{hostname_from_getent, parse_subnets, probe_ports};

const IP_OUT: &str = "1: lo    inet 127.0.0.1/8 scope host lo\\       valid_lft forever preferred_lft forever\n\
2: wlp2s0    inet 192.168.1.77/24 brd 192.168.1.255 scope global dynamic wlp2s0\\       valid_lft 80000sec\n\
3: tun0    inet 10.8.0.2/32 scope global tun0\n\
4: eth0    inet 10.0.0.5/16 brd 10.0.255.255 scope global eth0\n\
5: br0    inet 172.20.0.9/28 brd 172.20.0.15 scope global br0\n\
short line\n";

#[test]
fn subnets_from_ip_addr() {
    let s = parse_subnets(IP_OUT);
    let got: Vec<(String, String, u8, usize)> =
        s.into_iter().map(|x| (x.interface, x.local_ip, x.prefix_len, x.scan_count)).collect();
    assert_eq!(
        got,
        vec![
            ("wlp2s0".to_string(), "192.168.1.77".to_string(), 24, 254),
            ("eth0".to_string(), "10.0.0.5".to_string(), 16, 254),
            ("br0".to_string(), "172.20.0.9".to_string(), 28, 14),
        ]
    );
}

#[test]
fn probes_and_names() {
    assert_eq!(probe_ports(), vec![22, 80, 443, 8080, 8443, 53, 21, 25, 3306, 5432]);
    assert_eq!(hostname_from_getent(b"192.168.1.1     router.lan router\n").as_deref(), Some("router.lan"));
    assert_eq!(hostname_from_getent(b""), None);
    assert_eq!(hostname_from_getent(b"192.168.1.1\n"), None);
}
