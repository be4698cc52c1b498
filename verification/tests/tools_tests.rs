use netblame::tools::{
    latency_after, latency_reached, latency_start, latency_unreachable, trace_start_failed,
    traceroute_command, whois_result, whois_task_failed, LatencyStep,
};

#[test]
fn whois() {
    let r = whois_result(Ok(b"Domain Name: EXAMPLE.COM\n".to_vec()));
    assert_eq!(r.raw, "Domain Name: EXAMPLE.COM\n");
    assert_eq!(r.error, None);
    let r = whois_result(Err("No such file or directory".to_string()));
    assert_eq!(r.raw, "");
    assert_eq!(
        r.error.as_deref(),
        Some("`whois` not found — install: sudo dnf install whois  (No such file or directory)")
    );
    assert_eq!(whois_task_failed("join".into()).error.as_deref(), Some("join"));
}

#[test]
fn traceroute() {
    let (cmd, args) = traceroute_command(true, "example.com");
    assert_eq!(cmd, "traceroute");
    assert_eq!(args, vec!["-m", "30", "example.com"]);
    let (cmd, _) = traceroute_command(false, "example.com");
    assert_eq!(cmd, "tracepath");
    assert_eq!(trace_start_failed("tracepath", "e"), "Could not start tracepath: e");
}

#[test]
fn latency() {
    assert!(matches!(latency_start(), LatencyStep::Try { index: 0, port: 80 }));
    assert!(matches!(latency_after(0, None), LatencyStep::Try { index: 1, port: 443 }));
    match latency_after(0, Some(9)) {
        LatencyStep::Done(r) => assert_eq!((r.ms, r.port, r.error), (Some(9), Some(80), None)),
        _ => panic!(),
    }
    match latency_after(1, Some(12)) {
        LatencyStep::Done(r) => assert_eq!((r.ms, r.port), (Some(12), Some(443))),
        _ => panic!(),
    }
    match latency_after(1, None) {
        LatencyStep::Done(r) => assert_eq!(r.error.as_deref(), Some("No response on port 80 or 443")),
        _ => panic!(),
    }
    let r = latency_reached(12, 443);
    assert_eq!((r.ms, r.port, r.error), (Some(12), Some(443), None));
    let r = latency_unreachable();
    assert_eq!((r.ms, r.port), (None, None));
    assert_eq!(r.error.as_deref(), Some("No response on port 80 or 443"));
}
