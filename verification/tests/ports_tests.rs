use netblame::ports::{cli_ports, common_ports, probe_address, scan_target, sort_by_port, PortResult};

fn port(port: u16, service: &str, open: bool) -> PortResult {
    PortResult { port, service: service.to_string(), open }
}

#[test]
fn tables() {
    let common = common_ports();
    assert_eq!(common.len(), 20);
    assert_eq!((common[2].port, common[2].service.as_str()), (23, "Telnet"));
    assert_eq!((common[16].port, common[16].service.as_str()), (5432, "Postgres"));
    let cli = cli_ports();
    assert_eq!(cli.len(), 20);
    assert_eq!((cli[15].port, cli[15].service.as_str()), (5432, "PostgreSQL"));
    assert_eq!((cli[19].port, cli[19].service.as_str()), (27017, "MongoDB"));
}

#[test]
fn addresses() {
    assert_eq!(probe_address("example.com", 443), "example.com:443");
    assert_eq!(scan_target("example.com", Some(0x5DB8_D822)), "93.184.216.34");
    assert_eq!(scan_target("example.com", None), "example.com");
}

#[test]
fn sorted_by_port_and_stable() {
    let input = vec![port(443, "HTTPS", true), port(22, "SSH", false), port(80, "A", true), port(80, "B", false), port(21, "FTP", true)];
    let out = sort_by_port(input);
    let got: Vec<(u16, String)> = out.iter().map(|p| (p.port, p.service.clone())).collect();
    assert_eq!(
        got,
        vec![(21, "FTP".to_string()), (22, "SSH".to_string()), (80, "A".to_string()), (80, "B".to_string()), (443, "HTTPS".to_string())]
    );
    assert!(sort_by_port(vec![]).is_empty());
}

#[test]
fn table_results_keep_table_order() {
    let table: Vec<(u16, String)> = cli_ports().into_iter().map(|e| (e.port, e.service)).collect();
    let results: Vec<PortResult> = table.iter().map(|(p, s)| port(*p, s, *p % 2 == 0)).collect();
    let sorted: Vec<(u16, String)> = sort_by_port(results).into_iter().map(|r| (r.port, r.service)).collect();
    assert_eq!(sorted, table);
    let table: Vec<(u16, String)> = common_ports().into_iter().map(|e| (e.port, e.service)).collect();
    let results: Vec<PortResult> = table.iter().map(|(p, s)| port(*p, s, false)).collect();
    let sorted: Vec<(u16, String)> = sort_by_port(results).into_iter().map(|r| (r.port, r.service)).collect();
    assert_eq!(sorted, table);
}
