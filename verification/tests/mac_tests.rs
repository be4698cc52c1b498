use netblame::mac::{arp_table, mac_after_lookup, mac_from_arp, MacStep};

const ARP: &str = "IP address       HW type     Flags       HW address            Mask     Device\n\
192.168.1.1      0x1         0x2         aa:bb:cc:dd:ee:01     *        wlp2s0\n\
192.168.1.20     0x1         0x0         00:00:00:00:00:00     *        wlp2s0\n\
192.168.1.30     0x1         0x2         aa:bb:cc:dd:ee:30     *        wlp2s0\n\
192.168.1.30     0x1         0x2         aa:bb:cc:dd:ee:31     *        eth0\n";

#[test]
fn lookup_of_one_host() {
    let r = mac_from_arp("192.168.1.1", Ok(ARP.to_string()));
    assert_eq!(r.mac.as_deref(), Some("aa:bb:cc:dd:ee:01"));
    assert!(r.is_local && r.note.is_none());
    let r = mac_from_arp("192.168.1.30", Ok(ARP.to_string()));
    assert_eq!(r.mac.as_deref(), Some("aa:bb:cc:dd:ee:30"));
    let r = mac_from_arp("192.168.1.20", Ok(ARP.to_string()));
    assert_eq!(r.mac, None);
    assert_eq!(r.note.as_deref(), Some("ARP entry incomplete — try pinging the host first"));
    let r = mac_from_arp("192.168.1.99", Ok(ARP.to_string()));
    assert_eq!(r.note.as_deref(), Some("Not in ARP table — host may be unreachable or not yet contacted"));
    let r = mac_from_arp("IP", Ok(ARP.to_string()));
    assert_eq!(r.mac, None);
    let r = mac_from_arp("192.168.1.1", Err("permission denied".to_string()));
    assert!(r.is_local);
    assert_eq!(r.note.as_deref(), Some("Cannot read ARP table: permission denied"));
}

#[test]
fn steps_after_lookup() {
    match mac_after_lookup(Ok(vec![Some(0xC0A8_0101)])) {
        MacStep::ReadArp(ip) => assert_eq!(ip, "192.168.1.1"),
        MacStep::Done(_) => panic!("a private address is looked up"),
    }
    match mac_after_lookup(Ok(vec![Some(0x0808_0808)])) {
        MacStep::Done(r) => {
            assert!(!r.is_local);
            assert_eq!(r.note.as_deref(), Some("Remote host — MAC not visible beyond local network"));
        }
        MacStep::ReadArp(_) => panic!("a remote address is not looked up"),
    }
    match mac_after_lookup(Ok(vec![None])) {
        MacStep::Done(r) => assert_eq!(r.note.as_deref(), Some("Could not resolve host")),
        MacStep::ReadArp(_) => panic!(),
    }
    match mac_after_lookup(Err("x".into())) {
        MacStep::Done(r) => assert_eq!(r.note.as_deref(), Some("DNS resolution failed")),
        MacStep::ReadArp(_) => panic!(),
    }
}

#[test]
fn table_keeps_the_last_complete_entry() {
    let t = arp_table(ARP);
    assert_eq!(t.get("192.168.1.1").as_deref(), Some("aa:bb:cc:dd:ee:01"));
    assert_eq!(t.get("192.168.1.30").as_deref(), Some("aa:bb:cc:dd:ee:31"));
    assert_eq!(t.get("192.168.1.20"), None);
    assert_eq!(t.get("IP"), None);
    assert_eq!(arp_table("").get("192.168.1.1"), None);
}
