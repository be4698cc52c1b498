//! The port checks: the tables of ports to probe, the address of each probe, and the order
//! in which results are given back.
use vstd::prelude::*;
use crate::ipv4::{ip_text, u32_to_ip};
use crate::text::{decimal, push_char, push_decimal};

verus! {

/// The outcome of probing one TCP port.
pub struct PortResult {
    pub port: u16,
    pub service: String,
    pub open: bool,
}

/// A port and the service that usually listens on it.
pub struct PortEntry {
    pub port: u16,
    pub service: String,
}

fn entry(port: u16, service: &str) -> (e: PortEntry)
    ensures
        e.port == port,
        e.service@ == service@,
{
    PortEntry { port, service: service.to_owned() }
}

/// The ports of the common-ports check, with their services, in table order.
pub open spec fn common_port_numbers() -> Seq<u16> {
    seq![21, 22, 23, 25, 53, 80, 110, 143, 443, 445, 587, 993, 995, 1433, 3306, 3389, 5432, 6379, 8080, 8443]
}

/// The table of common ports that the desktop check probes.
pub fn common_ports() -> (r: Vec<PortEntry>)
    ensures
        r@.map_values(|e: PortEntry| e.port) == common_port_numbers(),
        r@[0].service@ == "FTP"@,
        r@[1].service@ == "SSH"@,
        r@[2].service@ == "Telnet"@,
        r@[3].service@ == "SMTP"@,
        r@[4].service@ == "DNS"@,
        r@[5].service@ == "HTTP"@,
        r@[6].service@ == "POP3"@,
        r@[7].service@ == "IMAP"@,
        r@[8].service@ == "HTTPS"@,
        r@[9].service@ == "SMB"@,
        r@[10].service@ == "SMTP/TLS"@,
        r@[11].service@ == "IMAPS"@,
        r@[12].service@ == "POP3S"@,
        r@[13].service@ == "MSSQL"@,
        r@[14].service@ == "MySQL"@,
        r@[15].service@ == "RDP"@,
        r@[16].service@ == "Postgres"@,
        r@[17].service@ == "Redis"@,
        r@[18].service@ == "HTTP-Alt"@,
        r@[19].service@ == "HTTPS-Alt"@,
{
    let r = vec![
        entry(21, "FTP"),
        entry(22, "SSH"),
        entry(23, "Telnet"),
        entry(25, "SMTP"),
        entry(53, "DNS"),
        entry(80, "HTTP"),
        entry(110, "POP3"),
        entry(143, "IMAP"),
        entry(443, "HTTPS"),
        entry(445, "SMB"),
        entry(587, "SMTP/TLS"),
        entry(993, "IMAPS"),
        entry(995, "POP3S"),
        entry(1433, "MSSQL"),
        entry(3306, "MySQL"),
        entry(3389, "RDP"),
        entry(5432, "Postgres"),
        entry(6379, "Redis"),
        entry(8080, "HTTP-Alt"),
        entry(8443, "HTTPS-Alt"),
    ];
    assert(r@.map_values(|e: PortEntry| e.port) =~= common_port_numbers());
    r
}

/// The view of a table entry.
pub open spec fn entry_view(e: PortEntry) -> (u16, Seq<char>) {
    (e.port, e.service@)
}

/// The ports that the command-line tool probes by default, with their services, in order.
pub open spec fn cli_port_table() -> Seq<(u16, Seq<char>)> {
    seq![
        (21u16, "FTP"@), (22u16, "SSH"@), (25u16, "SMTP"@), (53u16, "DNS"@), (80u16, "HTTP"@),
        (110u16, "POP3"@), (143u16, "IMAP"@), (443u16, "HTTPS"@), (445u16, "SMB"@),
        (587u16, "SMTP/TLS"@), (993u16, "IMAPS"@), (995u16, "POP3S"@), (1433u16, "MSSQL"@),
        (3306u16, "MySQL"@), (3389u16, "RDP"@), (5432u16, "PostgreSQL"@), (6379u16, "Redis"@),
        (8080u16, "HTTP-Alt"@), (8443u16, "HTTPS-Alt"@), (27017u16, "MongoDB"@),
    ]
}

/// The table of ports that the command-line tool probes by default.
pub fn cli_ports() -> (r: Vec<PortEntry>)
    ensures
        r@.map_values(|e: PortEntry| entry_view(e)) == cli_port_table(),
{
    let r = vec![
        entry(21, "FTP"),
        entry(22, "SSH"),
        entry(25, "SMTP"),
        entry(53, "DNS"),
        entry(80, "HTTP"),
        entry(110, "POP3"),
        entry(143, "IMAP"),
        entry(443, "HTTPS"),
        entry(445, "SMB"),
        entry(587, "SMTP/TLS"),
        entry(993, "IMAPS"),
        entry(995, "POP3S"),
        entry(1433, "MSSQL"),
        entry(3306, "MySQL"),
        entry(3389, "RDP"),
        entry(5432, "PostgreSQL"),
        entry(6379, "Redis"),
        entry(8080, "HTTP-Alt"),
        entry(8443, "HTTPS-Alt"),
        entry(27017, "MongoDB"),
    ];
    assert(r@.map_values(|e: PortEntry| entry_view(e)) =~= cli_port_table());
    r
}

/// The service that a table gives to `port`: that of its first entry for the port, or none.
pub open spec fn service_in(table: Seq<(u16, Seq<char>)>, port: u16) -> Seq<char>
    decreases table.len(),
{
    if table.len() == 0 {
        Seq::<char>::empty()
    } else if table[0].0 == port {
        table[0].1
    } else {
        service_in(table.drop_first(), port)
    }
}

fn service_of(table: &Vec<PortEntry>, port: u16) -> (r: String)
    ensures
        r@ == service_in(table@.map_values(|e: PortEntry| entry_view(e)), port),
{
    let ghost t = table@.map_values(|e: PortEntry| entry_view(e));
    let mut i: usize = 0;
    assert(t.skip(0) =~= t);
    while i < table.len()
        invariant
            i <= table.len(),
            t == table@.map_values(|e: PortEntry| entry_view(e)),
            service_in(t, port) == service_in(t.skip(i as int), port),
        decreases table.len() - i,
    {
        assert(t.skip(i as int)[0] == entry_view(table@[i as int]));
        if table[i].port == port {
            return table[i].service.clone();
        }
        assert(t.skip(i as int).drop_first() =~= t.skip(i + 1));
        i += 1;
    }
    String::new()
}

/// The ports that the command-line tool probes: the default table, or the ports chosen,
/// in the order given, each with the table's service for it (none for a port not in it).
pub open spec fn cli_selection(chosen: Option<Seq<u16>>) -> Seq<(u16, Seq<char>)> {
    match chosen {
        None => cli_port_table(),
        Some(ps) => ps.map_values(|p: u16| (p, service_in(cli_port_table(), p))),
    }
}

/// The ports that the command-line tool probes for the ports chosen, if any.
pub fn cli_port_entries(chosen: Option<Vec<u16>>) -> (r: Vec<PortEntry>)
    ensures
        r@.map_values(|e: PortEntry| entry_view(e)) == cli_selection(opt_ports(chosen)),
{
    let table = cli_ports();
    match chosen {
        None => table,
        Some(ps) => {
            let mut out: Vec<PortEntry> = Vec::new();
            let mut i: usize = 0;
            while i < ps.len()
                invariant
                    i <= ps.len(),
                    table@.map_values(|e: PortEntry| entry_view(e)) == cli_port_table(),
                    out@.map_values(|e: PortEntry| entry_view(e)) == ps@.take(i as int).map_values(
                        |p: u16| (p, service_in(cli_port_table(), p)),
                    ),
                decreases ps.len() - i,
            {
                let service = service_of(&table, ps[i]);
                let e = PortEntry { port: ps[i], service };
                let ghost old = out@;
                out.push(e);
                assert(out@.map_values(|e: PortEntry| entry_view(e)) =~= old.map_values(
                    |e: PortEntry| entry_view(e),
                ).push(entry_view(e)));
                assert(ps@.take(i + 1).map_values(|p: u16| (p, service_in(cli_port_table(), p)))
                    =~= ps@.take(i as int).map_values(
                    |p: u16| (p, service_in(cli_port_table(), p)),
                ).push(entry_view(e)));
                i += 1;
            }
            assert(ps@.take(ps.len() as int) =~= ps@);
            out
        },
    }
}

/// The view of optional chosen ports.
pub open spec fn opt_ports(o: Option<Vec<u16>>) -> Option<Seq<u16>> {
    match o {
        Some(v) => Some(v@),
        None => None,
    }
}

/// The text `host:port` that a probe connects to.
pub open spec fn probe_address_text(host: Seq<char>, port: u16) -> Seq<char> {
    host + seq![':'] + decimal(port as nat)
}

/// The address `host:port` that a probe connects to.
pub fn probe_address(host: &str, port: u16) -> (r: String)
    ensures
        r@ == probe_address_text(host@, port),
{
    let mut r = host.to_owned();
    push_char(&mut r, ':');
    push_decimal(&mut r, port as u64);
    r
}

/// The host that the port check probes: the first IPv4 address that the lookup gave, or the
/// name itself when it gave none.
pub fn scan_target(host: &str, first_ipv4: Option<u32>) -> (r: String)
    ensures
        r@ == (match first_ipv4 {
            Some(a) => ip_text(a),
            None => host@,
        }),
{
    match first_ipv4 {
        Some(a) => u32_to_ip(a),
        None => host.to_owned(),
    }
}

/// Where a result with port `port` goes among `sorted`: after every result whose port is not
/// greater.
pub open spec fn insert_pos(sorted: Seq<PortResult>, port: u16) -> int
    decreases sorted.len(),
{
    if sorted.len() == 0 || sorted.last().port <= port {
        sorted.len() as int
    } else {
        insert_pos(sorted.drop_last(), port)
    }
}

/// The results in order of port, as a stable sort by port gives them: results with equal
/// ports keep their order.
pub open spec fn sorted_by_port(s: Seq<PortResult>) -> Seq<PortResult>
    decreases s.len(),
{
    if s.len() == 0 {
        s
    } else {
        let prev = sorted_by_port(s.drop_last());
        prev.insert(insert_pos(prev, s.last().port), s.last())
    }
}

proof fn lemma_insert_pos_range(sorted: Seq<PortResult>, port: u16)
    ensures
        0 <= insert_pos(sorted, port) <= sorted.len(),
    decreases sorted.len(),
{
    if sorted.len() > 0 && sorted.last().port > port {
        lemma_insert_pos_range(sorted.drop_last(), port);
    }
}

/// The results ordered by port; results with equal ports keep their order.
pub fn sort_by_port(results: Vec<PortResult>) -> (r: Vec<PortResult>)
    ensures
        r@ == sorted_by_port(results@),
{
    let mut input = results;
    let ghost s = input@;
    let mut out: Vec<PortResult> = Vec::new();
    let mut rest: Vec<PortResult> = Vec::new();
    // Take the results out from the back, then insert them in input order.
    while input.len() > 0
        invariant
            input@ + rest@.reverse() == s,
        decreases input.len(),
    {
        let x = input.pop().unwrap();
        let ghost before = rest@;
        rest.push(x);
        assert(rest@.reverse() =~= seq![x] + before.reverse());
    }
    assert(rest@.reverse() =~= s);
    assert(s.take(0) =~= Seq::<PortResult>::empty());
    while rest.len() > 0
        invariant
            rest@.reverse() =~= s.skip(s.len() - rest@.len()),
            rest@.len() <= s.len(),
            out@ == sorted_by_port(s.take(s.len() - rest@.len())),
        decreases rest.len(),
    {
        let x = rest.pop().unwrap();
        let ghost i = s.len() - rest@.len() - 1;
        assert(s.skip(i) =~= rest@.push(x).reverse());
        assert(rest@.push(x).reverse()[0] == x);
        assert(s.skip(i)[0] == s[i]);
        assert(s[i] == x);
        assert(rest@.push(x).reverse().drop_first() =~= rest@.reverse());
        assert(s.skip(i).drop_first() =~= s.skip(i + 1));
        assert(s.take(i + 1).drop_last() =~= s.take(i));
        assert(rest@.reverse() =~= s.skip(i + 1));
        let mut j = out.len();
        assert(out@.take(j as int) =~= out@);
        proof {
            lemma_insert_pos_range(out@, x.port);
        }
        while j > 0 && out[j - 1].port > x.port
            invariant
                j <= out.len(),
                insert_pos(out@, x.port) == insert_pos(out@.take(j as int), x.port),
            decreases j,
        {
            assert(out@.take(j as int).drop_last() =~= out@.take(j - 1));
            j -= 1;
        }
        assert(insert_pos(out@.take(j as int), x.port) == j);
        out.insert(j, x);
    }
    assert(s.take(s.len() as int) =~= s);
    out
}


/// Whether the ports of `s` never decrease.
pub open spec fn ports_sorted(s: Seq<PortResult>) -> bool {
    forall|i: int, j: int| 0 <= i < j < s.len() ==> #[trigger] s[i].port <= #[trigger] s[j].port
}

proof fn lemma_insert_pos_splits(sorted: Seq<PortResult>, port: u16)
    requires
        ports_sorted(sorted),
    ensures
        forall|i: int| 0 <= i < insert_pos(sorted, port) ==> #[trigger] sorted[i].port <= port,
        forall|i: int|
            insert_pos(sorted, port) <= i < sorted.len() ==> #[trigger] sorted[i].port > port,
    decreases sorted.len(),
{
    lemma_insert_pos_range(sorted, port);
    if sorted.len() > 0 {
        if sorted.last().port <= port {
            assert forall|i: int| 0 <= i < sorted.len() implies #[trigger] sorted[i].port <= port by {
                if i < sorted.len() - 1 {
                    assert(sorted[i].port <= sorted[sorted.len() - 1].port);
                }
            }
        } else {
            let d = sorted.drop_last();
            assert(ports_sorted(d)) by {
                assert forall|i: int, j: int| 0 <= i < j < d.len() implies #[trigger] d[i].port
                    <= #[trigger] d[j].port by {
                    assert(d[i] == sorted[i] && d[j] == sorted[j]);
                }
            }
            lemma_insert_pos_splits(d, port);
            lemma_insert_pos_range(d, port);
            assert forall|i: int| 0 <= i < insert_pos(sorted, port) implies #[trigger] sorted[i].port
                <= port by {
                assert(sorted[i] == d[i]);
            }
            assert forall|i: int| insert_pos(sorted, port) <= i < sorted.len() implies #[trigger] sorted[i].port
                > port by {
                if i < sorted.len() - 1 {
                    assert(sorted[i] == d[i]);
                }
            }
        }
    }
}

/// The results that `sort_by_port` gives are in order of port.
pub proof fn law_sort_by_port_sorted(s: Seq<PortResult>)
    ensures
        ports_sorted(sorted_by_port(s)),
    decreases s.len(),
{
    if s.len() > 0 {
        let prev = sorted_by_port(s.drop_last());
        let x = s.last();
        law_sort_by_port_sorted(s.drop_last());
        lemma_insert_pos_splits(prev, x.port);
        lemma_insert_pos_range(prev, x.port);
        let k = insert_pos(prev, x.port);
        let r = prev.insert(k, x);
        prev.insert_ensures(k, x);
        assert forall|i: int, j: int| 0 <= i < j < r.len() implies #[trigger] r[i].port
            <= #[trigger] r[j].port by {
            if i < k && j < k {
                assert(r[i] == prev[i] && r[j] == prev[j]);
            } else if i < k && j == k {
                assert(r[i] == prev[i]);
            } else if i < k {
                assert(r[i] == prev[i] && r[j] == prev[j - 1]);
            } else if i == k {
                assert(r[j] == prev[j - 1]);
            } else {
                assert(r[i] == prev[i - 1] && r[j] == prev[j - 1]);
            }
        }
    }
}

/// `sort_by_port` keeps every result, as often as it occurs, and adds none.
pub proof fn law_sort_by_port_permutes(s: Seq<PortResult>)
    ensures
        sorted_by_port(s).to_multiset() == s.to_multiset(),
    decreases s.len(),
{
    if s.len() > 0 {
        let prev = sorted_by_port(s.drop_last());
        let x = s.last();
        law_sort_by_port_permutes(s.drop_last());
        lemma_insert_pos_range(prev, x.port);
        vstd::seq_lib::to_multiset_insert(prev, insert_pos(prev, x.port), x);
        vstd::seq_lib::to_multiset_build(s.drop_last(), x);
        assert(s.drop_last().push(x) =~= s);
    }
}


/// Sorting results that are already in order of port gives them back unchanged.
pub proof fn law_sort_keeps_sorted(s: Seq<PortResult>)
    requires
        ports_sorted(s),
    ensures
        sorted_by_port(s) == s,
    decreases s.len(),
{
    if s.len() > 0 {
        let d = s.drop_last();
        assert(ports_sorted(d)) by {
            assert forall|i: int, j: int| 0 <= i < j < d.len() implies #[trigger] d[i].port
                <= #[trigger] d[j].port by {
                assert(d[i] == s[i] && d[j] == s[j]);
            }
        }
        law_sort_keeps_sorted(d);
        if d.len() > 0 {
            assert(d.last() == s[s.len() - 2]);
        }
        assert(insert_pos(d, s.last().port) == d.len());
        assert(d.insert(d.len() as int, s.last()) =~= s);
    }
}

/// The ports of a table, in table order.
pub open spec fn table_ports(t: Seq<(u16, Seq<char>)>) -> Seq<u16> {
    t.map_values(|e: (u16, Seq<char>)| e.0)
}

/// The ports of both tables strictly increase, so the results of probing a table, sorted
/// by port, come back in table order: each table port once, with its service.
pub proof fn law_table_results_keep_order(r: Seq<PortResult>)
    requires
        r.map_values(|x: PortResult| x.port) == common_port_numbers() || r.map_values(
            |x: PortResult| x.port,
        ) == table_ports(cli_port_table()),
    ensures
        sorted_by_port(r) == r,
        forall|i: int, j: int| 0 <= i < j < r.len() ==> #[trigger] r[i].port < #[trigger] r[j].port,
{
    let ps = r.map_values(|x: PortResult| x.port);
    let c = common_port_numbers();
    let t = table_ports(cli_port_table());
    assert(forall|i: int| 0 <= i < r.len() ==> #[trigger] ps[i] == r[i].port);
    if ps == c {
        assert(forall|i: int| 0 <= i < 19 ==> #[trigger] c[i] < c[i + 1]);
    } else {
        assert(t =~= seq![21u16, 22, 25, 53, 80, 110, 143, 443, 445, 587, 993, 995, 1433, 3306, 3389, 5432, 6379, 8080, 8443, 27017]);
        assert(forall|i: int| 0 <= i < 19 ==> #[trigger] t[i] < t[i + 1]);
    }
    assert forall|i: int, j: int| 0 <= i < j < r.len() implies #[trigger] r[i].port
        < #[trigger] r[j].port by {
        lemma_chain_increasing(ps, i, j);
    }
    law_sort_keeps_sorted(r);
}

proof fn lemma_chain_increasing(ps: Seq<u16>, i: int, j: int)
    requires
        0 <= i < j < ps.len(),
        forall|k: int| 0 <= k < ps.len() - 1 ==> #[trigger] ps[k] < ps[k + 1],
    ensures
        ps[i] < ps[j],
    decreases j - i,
{
    if j > i + 1 {
        lemma_chain_increasing(ps, i, j - 1);
    }
}

} // verus!
