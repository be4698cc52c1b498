use netblame::ping::{
    classify_ping_line, cli_ping_text, is_denied_text, ping_args, ping_start_failed, ping_summary, ping_task_failed,
    privilege_line, stderr_needs_root, PingRun,
};

const LINUX_OUT: &str = "PING example.com (93.184.216.34) 56(84) bytes of data.\n\
64 bytes from 93.184.216.34: icmp_seq=1 ttl=56 time=11.2 ms\n\
64 bytes from 93.184.216.34: icmp_seq=2 ttl=56 time=10.9 ms\n\
\n\
--- example.com ping statistics ---\n\
3 packets transmitted, 2 received, 33% packet loss, time 2003ms\n\
rtt min/avg/max/mdev = 10.912/11.056/11.201/0.144 ms\n";

fn finished(out: &str, err: &str, ok: bool) -> PingRun {
    PingRun::Finished { stdout: out.as_bytes().to_vec(), stderr: err.as_bytes().to_vec(), exit_ok: ok }
}

#[test]
fn summary_of_a_run() {
    let s = ping_summary(finished(LINUX_OUT, "", true));
    assert_eq!(s.packet_loss, Some(33));
    assert_eq!(s.avg_ms_text.as_deref(), Some("11.056"));
    assert!(s.success);
    assert!(!s.requires_root);
    assert_eq!(s.error, None);
}

#[test]
fn total_loss_is_no_success() {
    let out = "3 packets transmitted, 0 received, 100% packet loss, time 2040ms\n";
    let s = ping_summary(finished(out, "  no reply \n", false));
    assert_eq!(s.packet_loss, Some(100));
    assert_eq!(s.avg_ms_text, None);
    assert!(!s.success);
    assert_eq!(s.error.as_deref(), Some("no reply"));
}

#[test]
fn bsd_style_summary() {
    let out = "4 packets transmitted, 4 packets received, 0.0% packet loss\nround-trip min/avg/max/stddev = 9.1/9.5/10.2/0.4 ms\n";
    let s = ping_summary(finished(out, "", true));
    // "0.0" does not read as a whole number.
    assert_eq!(s.packet_loss, None);
    assert_eq!(s.avg_ms_text.as_deref(), Some("9.5"));
    assert!(!s.success);
}

#[test]
fn privileges() {
    let s = ping_summary(finished("", "ping: socket: Operation not permitted\n", false));
    assert!(s.requires_root);
    assert!(!s.success);
    assert_eq!(s.error.as_deref(), Some("ICMP requires elevated privileges on this system"));
    assert!(stderr_needs_root("ping: PERMISSION DENIED"));
    assert!(!stderr_needs_root("ping: unknown host"));
    assert!(is_denied_text("ping: socket: operation not permitted"));
    assert!(!is_denied_text("ping: socket: Operation not permitted"));
    assert!(!is_denied_text(""));
    let p = privilege_line();
    assert!(p.requires_root && !p.is_reply);
    assert_eq!(p.line, "ICMP ping requires elevated privileges on this system.");
}

#[test]
fn errors() {
    let s = ping_summary(PingRun::SpawnFailed("No such file or directory (os error 2)".into()));
    assert_eq!(s.error.as_deref(), Some("ping not found: No such file or directory (os error 2)"));
    assert_eq!(ping_task_failed("cancelled").error.as_deref(), Some("Task error: cancelled"));
    assert_eq!(ping_start_failed("e"), "Could not start ping: e");
}

#[test]
fn command_line_reading() {
    let t = cli_ping_text(finished(LINUX_OUT, "", true));
    assert_eq!(t.avg_text.as_deref(), Some("11.056"));
    assert_eq!(t.loss_text.as_deref(), Some("33"));
    assert_eq!(t.error, None);
    let t = cli_ping_text(finished("", "ping: socket: Operation not permitted", false));
    assert_eq!(t.error.as_deref(), Some("requires root or cap_net_raw"));
    let t = cli_ping_text(PingRun::SpawnFailed("boom".into()));
    assert_eq!(t.error.as_deref(), Some("boom"));
}

#[test]
fn line_kinds() {
    let l = classify_ping_line("64 bytes from 1.1.1.1: icmp_seq=1 ttl=57 time=9.8 ms".to_string());
    assert!(l.is_reply && !l.is_timeout && !l.is_stats && !l.requires_root);
    let l = classify_ping_line("Request timeout for icmp_seq 3".to_string());
    assert!(l.is_timeout && l.is_reply);
    let l = classify_ping_line("rtt min/avg/max/mdev = 1/2/3/4 ms".to_string());
    assert!(l.is_stats && !l.is_reply);
    let l = classify_ping_line("PING 1.1.1.1".to_string());
    assert!(!l.is_reply && !l.is_timeout && !l.is_stats);
}

#[test]
fn run_arguments() {
    assert_eq!(ping_args("example.com", 5), vec!["-c", "5", "example.com"]);
    assert_eq!(ping_args("example.com", 0), vec!["example.com"]);
}
