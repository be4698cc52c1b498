use netblame::ssl::{is_ip_literal, ssl_after_lookup, ssl_result, ssl_start, CertFacts, SslOutcome, SslStep};

#[test]
fn bare_addresses_are_refused() {
    assert!(is_ip_literal("1.1.1.1"));
    assert!(is_ip_literal("::1"));
    assert!(!is_ip_literal("github.com"));
    let r = ssl_result(SslOutcome::IpLiteral);
    assert!(!r.valid);
    assert_eq!(r.error.as_deref(), Some("SSL check requires a domain name, not a bare IP"));
}

#[test]
fn error_messages() {
    let cases = vec![
        (SslOutcome::NoIpv4Record, "DNS resolution failed (no IPv4 record)"),
        (SslOutcome::DnsError("x".into()), "DNS error: x"),
        (SslOutcome::InitError("x".into()), "SSL init: x"),
        (SslOutcome::ConnectError("x".into()), "TCP connect: x"),
        (SslOutcome::HandshakeError("x".into()), "TLS handshake: x"),
        (SslOutcome::NoCertificate, "No certificate presented"),
        (SslOutcome::TaskError("x".into()), "Task error: x"),
    ];
    for (o, msg) in cases {
        let r = ssl_result(o);
        assert!(!r.valid && r.days_remaining.is_none() && r.expires.is_none());
        assert_eq!(r.error.as_deref(), Some(msg));
    }
}

#[test]
fn validity_follows_days_remaining() {
    let cert = |days| CertFacts {
        expires: "Jan  1 00:00:00 2030 GMT".to_string(),
        days_remaining: days,
        subject: Some("example.com".to_string()),
        issuer: None,
    };
    let r = ssl_result(SslOutcome::Certificate(cert(Some(0))));
    assert!(r.valid);
    assert_eq!(r.expires.as_deref(), Some("Jan  1 00:00:00 2030 GMT"));
    assert_eq!(r.subject.as_deref(), Some("example.com"));
    assert_eq!(r.error, None);
    assert!(!ssl_result(SslOutcome::Certificate(cert(Some(-1)))).valid);
    assert!(!ssl_result(SslOutcome::Certificate(cert(None))).valid);
}

#[test]
fn steps() {
    assert!(matches!(ssl_start("github.com"), SslStep::Lookup));
    match ssl_start("1.1.1.1") {
        SslStep::Done(r) => assert_eq!(r.error.as_deref(), Some("SSL check requires a domain name, not a bare IP")),
        _ => panic!("a bare address ends the check"),
    }
    assert!(matches!(ssl_after_lookup(Ok(vec![None, Some(5)])), SslStep::Connect(5)));
    match ssl_after_lookup(Ok(vec![None])) {
        SslStep::Done(r) => assert_eq!(r.error.as_deref(), Some("DNS resolution failed (no IPv4 record)")),
        _ => panic!(),
    }
    match ssl_after_lookup(Err("e".into())) {
        SslStep::Done(r) => {
            assert_eq!(r.error.as_deref(), Some("DNS error: e"));
            assert!(!r.valid && r.subject.is_none() && r.issuer.is_none() && r.expires.is_none());
        }
        _ => panic!(),
    }
}
