use netblame::dns::{dns_records_result, dns_result, first_ipv4, mx_text, normalize_host, txt_text};

#[test]
fn addresses_once_each_and_ipv4_only() {
    let r = dns_result(Ok(vec![Some(0x0A00_0001), None, Some(0x0A00_0002), Some(0x0A00_0001)]));
    assert_eq!(r.addresses, vec!["10.0.0.1", "10.0.0.2"]);
    assert_eq!(r.error, None);
}

#[test]
fn no_ipv4_address() {
    let r = dns_result(Ok(vec![None, None]));
    assert!(r.addresses.is_empty());
    assert_eq!(r.error.as_deref(), Some("No IPv4 addresses found"));
    let r = dns_result(Err("failed to lookup address".to_string()));
    assert!(r.addresses.is_empty());
    assert_eq!(r.error.as_deref(), Some("failed to lookup address"));
}

#[test]
fn first_address() {
    assert_eq!(first_ipv4(&vec![None, Some(7), Some(8)]), Some(7));
    assert_eq!(first_ipv4(&vec![None]), None);
}

#[test]
fn host_names_lose_trailing_dots() {
    assert_eq!(normalize_host("github.com."), "github.com");
    assert_eq!(normalize_host("a.b.."), "a.b");
    assert_eq!(normalize_host("plain"), "plain");
}

#[test]
fn records() {
    assert_eq!(mx_text(10, "mx.example.com."), "10 mx.example.com.");
    assert_eq!(txt_text(&vec![b"v=spf1 ".to_vec(), b"-all".to_vec()]), "v=spf1 -all");
    assert_eq!(txt_text(&vec![vec![0x66, 0xFF]]), "f\u{FFFD}");
    let r = dns_records_result(
        Err("no A".to_string()),
        Ok(vec![]),
        Err("no NS".to_string()),
        Ok(vec![]),
        Err("no CNAME".to_string()),
    );
    assert_eq!(r.error.as_deref(), Some("no A"));
    let r = dns_records_result(
        Ok(vec![]),
        Ok(vec!["10 mx.example.com.".to_string()]),
        Err("no NS".to_string()),
        Ok(vec![]),
        Ok(vec![]),
    );
    assert_eq!(r.error, None);
    assert_eq!(r.mx, vec!["10 mx.example.com."]);
    let r = dns_records_result(Ok(vec![]), Ok(vec![]), Ok(vec![]), Ok(vec![]), Ok(vec![]));
    assert_eq!(r.error, None);
}
