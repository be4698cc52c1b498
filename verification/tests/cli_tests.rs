use netblame::cli::{
    dns_lines, fail, header_text, ok, parse_cli_args, parse_port_list, port_lines, section,
    ssl_lines, warn, SslInfo,
};
use netblame::ports::{cli_port_entries, PortResult};

const DIM: &str = "\x1b[2m";
const RESET: &str = "\x1b[0m";

#[test]
fn status_marks() {
    assert_eq!(ok("up"), "\x1b[38;2;63;185;80m✔\x1b[0m  up");
    assert_eq!(fail("down"), "\x1b[38;2;248;81;73m✘\x1b[0m  down");
    assert_eq!(warn("slow"), "\x1b[38;2;210;153;34m!\x1b[0m  slow");
}

#[test]
fn label_column() {
    assert_eq!(header_text("DNS"), "\x1b[1m\x1b[38;2;88;166;255mDNS       \x1b[0m");
    let s = section("PORTS", vec!["a".to_string(), "b".to_string()]);
    assert_eq!(s, vec![format!("{}a", header_text("PORTS")), "          b".to_string()]);
    assert_eq!(section("X", vec![]), vec![header_text("X")]);
}

#[test]
fn dns_section() {
    assert_eq!(dns_lines(&vec![]), vec![fail("no addresses found")]);
    let lines = dns_lines(&vec!["140.82.121.3".to_string(), "140.82.121.4".to_string()]);
    assert_eq!(lines, vec![ok("140.82.121.3"), format!("   {DIM}140.82.121.4{RESET}")]);
}

fn port(port: u16, service: &str, open: bool) -> PortResult {
    PortResult { port, service: service.to_string(), open }
}

#[test]
fn ports_section_as_in_the_readme() {
    let mut ports = vec![port(22, "SSH", true), port(80, "HTTP", true), port(443, "HTTPS", true)];
    for p in [21u16, 25, 53, 110, 143, 445, 587, 993, 995, 1433, 3306, 3389, 5432, 6379, 8080, 8443, 27017] {
        ports.push(port(p, "x", false));
    }
    let lines = port_lines(&ports, false);
    assert_eq!(
        lines,
        vec![
            ok("22    SSH"),
            ok("80    HTTP"),
            ok("443   HTTPS"),
            format!("   {DIM}17 ports closed / filtered (use -a to show all){RESET}"),
        ]
    );
}

#[test]
fn ports_section_with_all_shown() {
    let lines = port_lines(&vec![port(22, "SSH", true), port(25, "SMTP", false)], true);
    assert_eq!(
        lines,
        vec![ok("22    SSH"), fail("25    SMTP"), format!("   {DIM}1 ports closed / filtered{RESET}")]
    );
}

#[test]
fn ports_section_with_none_open() {
    let lines = port_lines(&vec![port(80, "HTTP", false), port(27017, "MongoDB", false)], false);
    assert_eq!(
        lines,
        vec![warn("no open ports found"), format!("   {DIM}2 ports closed / filtered (use -a to show all){RESET}")]
    );
}

#[test]
fn ssl_section_as_in_the_readme() {
    let info = SslInfo {
        valid: true,
        days: Some(58),
        subject: "github.com".to_string(),
        issuer: "Sectigo Limited".to_string(),
        error: None,
    };
    assert_eq!(
        ssl_lines(&info),
        vec![
            ok("valid  58 days remaining"),
            format!("   {DIM}CN  github.com  ·  CA  Sectigo Limited{RESET}"),
        ]
    );
}

#[test]
fn ssl_section_states() {
    let mut info = SslInfo { valid: true, days: Some(30), subject: String::new(), issuer: String::new(), error: None };
    assert_eq!(ssl_lines(&info), vec![warn("expiring in 30 days")]);
    info.days = Some(0);
    assert_eq!(ssl_lines(&info), vec![fail("expired")]);
    info.days = None;
    assert_eq!(ssl_lines(&info), vec![fail("expired")]);
    info.days = Some(31);
    info.issuer = "Let's Encrypt".to_string();
    assert_eq!(ssl_lines(&info), vec![ok("valid  31 days remaining"), format!("   {DIM}CA  Let's Encrypt{RESET}")]);
    info.error = Some("connection refused".to_string());
    assert_eq!(ssl_lines(&info), vec![fail("connection refused")]);
    let invalid = SslInfo { valid: false, days: None, subject: String::new(), issuer: String::new(), error: None };
    assert!(ssl_lines(&invalid).is_empty());
}

fn args(a: &[&str]) -> Vec<String> {
    a.iter().map(|s| s.to_string()).collect()
}

#[test]
fn port_lists() {
    assert_eq!(parse_port_list("22,80,443"), Some(vec![22, 80, 443]));
    assert_eq!(parse_port_list("8000-8010"), Some((8000..=8010).collect()));
    assert_eq!(parse_port_list("22,8000-8002"), Some(vec![22, 8000, 8001, 8002]));
    assert_eq!(parse_port_list("9-9"), Some(vec![9]));
    assert_eq!(parse_port_list("10-9"), None);
    assert_eq!(parse_port_list("22,,80"), None);
    assert_eq!(parse_port_list("70000"), None);
    assert_eq!(parse_port_list("ssh"), None);
}

#[test]
fn command_lines_of_the_readme() {
    let o = parse_cli_args(&args(&["netblame-cli", "github.com"])).unwrap();
    assert_eq!((o.host.as_str(), o.ports, o.show_all), ("github.com", None, false));
    let o = parse_cli_args(&args(&["netblame-cli", "-a", "github.com"])).unwrap();
    assert!(o.show_all);
    let o = parse_cli_args(&args(&["netblame-cli", "-p", "22,80,443", "github.com"])).unwrap();
    assert_eq!(o.ports, Some(vec![22, 80, 443]));
    assert_eq!(o.host, "github.com");
    let o = parse_cli_args(&args(&["netblame-cli", "-p", "8000-8010", "github.com."])).unwrap();
    assert_eq!(o.ports, Some((8000..=8010).collect()));
    assert_eq!(o.host, "github.com");
}

#[test]
fn command_line_errors() {
    assert_eq!(
        parse_cli_args(&args(&["netblame-cli"])).err().as_deref(),
        Some("Usage: netblame-cli [-a] [-p PORTS] <host>")
    );
    assert_eq!(
        parse_cli_args(&args(&["netblame-cli", "github.com", "-p"])).err().as_deref(),
        Some("missing port list after -p")
    );
    assert_eq!(
        parse_cli_args(&args(&["netblame-cli", "-p", "x", "github.com"])).err().as_deref(),
        Some("invalid port list: x")
    );
}

#[test]
fn chosen_ports_get_their_services() {
    let e = cli_port_entries(Some(vec![443, 8000]));
    let got: Vec<(u16, String)> = e.into_iter().map(|e| (e.port, e.service)).collect();
    assert_eq!(got, vec![(443, "HTTPS".to_string()), (8000, String::new())]);
    assert_eq!(cli_port_entries(None).len(), 20);
}
