//! Hardware addresses from the kernel's ARP table (`/proc/net/arp`): the lookup of one
//! host, and the table of every complete entry.
use vstd::prelude::*;
use crate::dns::{first_ipv4, first_some};
use crate::ipv4::{ip_text, is_local_range, is_private_ip, law_ip_text_is_dotted_quad, u32_to_ip};
use crate::text::{
    chars_eq, chars_eq_str, chars_of, lines, lines_of, opt_view, string_from, tokens, tokens_of,
};

verus! {

/// The MAC address that marks an incomplete ARP entry.
pub open spec fn zero_mac() -> Seq<char> {
    "00:00:00:00:00:00"@
}

/// The rows of the ARP table: its lines after the header line.
pub open spec fn after_header(ls: Seq<Seq<char>>) -> Seq<Seq<char>> {
    if ls.len() > 0 { ls.drop_first() } else { ls }
}

/// The MAC address of the first row about `ip`: a row with at least four columns whose
/// first column is `ip` gives its fourth column.
pub open spec fn first_arp_mac(rows: Seq<Seq<char>>, ip: Seq<char>) -> Option<Seq<char>>
    decreases rows.len(),
{
    if rows.len() == 0 {
        None
    } else {
        let cols = tokens(rows[0]);
        if cols.len() >= 4 && cols[0] == ip {
            Some(cols[3])
        } else {
            first_arp_mac(rows.drop_first(), ip)
        }
    }
}

/// The MAC address of a host as the check reports it.
pub struct MacResult {
    pub mac: Option<String>,
    pub is_local: bool,
    pub note: Option<String>,
}

/// What the MAC check does after the lookup of the host: report at once, or read the ARP
/// table about this address.
pub enum MacStep {
    Done(MacResult),
    ReadArp(String),
}

/// Whether `r` is a report with no MAC address, the locality `local` and the note `note`.
pub open spec fn mac_note(r: MacResult, local: bool, note: Seq<char>) -> bool {
    r.mac is None && r.is_local == local && opt_view(r.note) == Some(note)
}

fn noted(local: bool, note: &str) -> (r: MacResult)
    ensures
        mac_note(r, local, note@),
{
    MacResult { mac: None, is_local: local, note: Some(note.to_owned()) }
}

/// The step of the MAC check after the lookup of the host: a failed lookup, no IPv4 address
/// or a remote address end the check; a private, loopback or link-local address is looked
/// up in the ARP table.
pub fn mac_after_lookup(lookup: Result<Vec<Option<u32>>, String>) -> (r: MacStep)
    ensures
        match lookup {
            Err(_) => r matches MacStep::Done(m) && mac_note(m, false, "DNS resolution failed"@),
            Ok(addrs) => match first_some(addrs@) {
                None => r matches MacStep::Done(m) && mac_note(m, false, "Could not resolve host"@),
                Some(a) => if is_local_range(a) {
                    r matches MacStep::ReadArp(ip) && ip@ == ip_text(a)
                } else {
                    r matches MacStep::Done(m) && mac_note(
                        m,
                        false,
                        "Remote host — MAC not visible beyond local network"@,
                    )
                },
            },
        },
{
    match lookup {
        Err(_) => MacStep::Done(noted(false, "DNS resolution failed")),
        Ok(addrs) => match first_ipv4(&addrs) {
            None => MacStep::Done(noted(false, "Could not resolve host")),
            Some(a) => {
                let ip = u32_to_ip(a);
                proof {
                    law_ip_text_is_dotted_quad(a);
                }
                if !is_private_ip(ip.as_str()) {
                    MacStep::Done(noted(false, "Remote host — MAC not visible beyond local network"))
                } else {
                    MacStep::ReadArp(ip)
                }
            },
        },
    }
}

/// The index of the first row about `ip`, and its columns.
fn find_arp_row(rows: &Vec<Vec<char>>, from: usize, ip: &Vec<char>) -> (r: Option<Vec<Vec<char>>>)
    requires
        from <= rows.len(),
    ensures
        match r {
            Some(cols) => cols@.len() >= 4 && first_arp_mac(rows.deep_view().skip(from as int), ip@)
                == Some(cols.deep_view()[3]),
            None => first_arp_mac(rows.deep_view().skip(from as int), ip@) is None,
        },
{
    let ghost d = rows.deep_view().skip(from as int);
    let mut i = from;
    assert(rows.deep_view().skip(i as int) =~= d);
    while i < rows.len()
        invariant
            from <= i <= rows.len(),
            d == rows.deep_view().skip(from as int),
            first_arp_mac(d, ip@) == first_arp_mac(rows.deep_view().skip(i as int), ip@),
        decreases rows.len() - i,
    {
        assert(rows.deep_view().skip(i as int)[0] =~= rows[i as int]@);
        let cols = tokens_of(&rows[i]);
        if cols.len() >= 4 && chars_eq(&cols[0], ip) {
            assert(cols.deep_view()[0] =~= cols[0]@);
            return Some(cols);
        }
        proof {
            if cols.len() >= 4 {
                assert(cols.deep_view()[0] =~= cols[0]@);
            }
        }
        assert(rows.deep_view().skip(i as int).drop_first() =~= rows.deep_view().skip(i + 1));
        i += 1;
    }
    None
}

/// What the MAC check reports for `ip` from the ARP table, or from the error of reading it.
pub fn mac_from_arp(ip: &str, arp: Result<String, String>) -> (r: MacResult)
    ensures
        match arp {
            Err(e) => mac_note(r, true, "Cannot read ARP table: "@ + e@),
            Ok(text) => match first_arp_mac(after_header(lines(text@)), ip@) {
                None => mac_note(
                    r,
                    true,
                    "Not in ARP table — host may be unreachable or not yet contacted"@,
                ),
                Some(mac) => if mac == zero_mac() {
                    mac_note(r, true, "ARP entry incomplete — try pinging the host first"@)
                } else {
                    opt_view(r.mac) == Some(mac) && r.is_local && r.note is None
                },
            },
        },
{
    match arp {
        Err(e) => {
            let mut note = "Cannot read ARP table: ".to_owned();
            note.append(e.as_str());
            MacResult { mac: None, is_local: true, note: Some(note) }
        },
        Ok(text) => {
            let rows = lines_of(&chars_of(text.as_str()));
            let ip_chars = chars_of(ip);
            let from: usize = if rows.len() > 0 { 1 } else { 0 };
            assert(rows.deep_view().skip(from as int) =~= after_header(rows.deep_view()));
            match find_arp_row(&rows, from, &ip_chars) {
                None => noted(
                    true,
                    "Not in ARP table — host may be unreachable or not yet contacted",
                ),
                Some(cols) => {
                    assert(cols.deep_view()[3] =~= cols[3]@);
                    if chars_eq_str(&cols[3], "00:00:00:00:00:00") {
                        noted(true, "ARP entry incomplete — try pinging the host first")
                    } else {
                        MacResult { mac: Some(string_from(&cols[3])), is_local: true, note: None }
                    }
                },
            }
        },
    }
}

/// The complete entries of ARP table rows, in order: each row with at least four columns
/// and a MAC address that is not all zeros gives its address and MAC address.
pub open spec fn arp_entries(rows: Seq<Seq<char>>) -> Seq<(Seq<char>, Seq<char>)>
    decreases rows.len(),
{
    if rows.len() == 0 {
        Seq::<(Seq<char>, Seq<char>)>::empty()
    } else {
        let prev = arp_entries(rows.drop_last());
        let cols = tokens(rows.last());
        if cols.len() >= 4 && cols[3] != zero_mac() {
            prev.push((cols[0], cols[3]))
        } else {
            prev
        }
    }
}

/// The MAC address that a table of entries holds for `ip`: that of its last entry about
/// `ip`, as a map filled in order keeps it.
pub open spec fn last_mac(entries: Seq<(Seq<char>, Seq<char>)>, ip: Seq<char>) -> Option<
    Seq<char>,
>
    decreases entries.len(),
{
    if entries.len() == 0 {
        None
    } else if entries.last().0 == ip {
        Some(entries.last().1)
    } else {
        last_mac(entries.drop_last(), ip)
    }
}

/// Whether entry `k` of `entries` is about exactly `ip`, holds `mac`, and is the last entry
/// about `ip`.
pub open spec fn last_entry_for(
    entries: Seq<(Seq<char>, Seq<char>)>,
    ip: Seq<char>,
    k: int,
    mac: Seq<char>,
) -> bool {
    &&& 0 <= k < entries.len()
    &&& entries[k].0 == ip
    &&& entries[k].1 == mac
    &&& forall|j: int| k < j < entries.len() ==> entries[j].0 != ip
}

/// Looking up an address finds nothing exactly when no entry's address equals it; and what
/// it finds is the MAC address of the last entry whose address equals it (an entry whose
/// address only begins with the query is no match).
pub proof fn law_last_mac(entries: Seq<(Seq<char>, Seq<char>)>, ip: Seq<char>)
    ensures
        last_mac(entries, ip) is None <==> forall|k: int|
            0 <= k < entries.len() ==> #[trigger] entries[k].0 != ip,
        last_mac(entries, ip) is Some ==> exists|k: int|
            #[trigger] last_entry_for(entries, ip, k, last_mac(entries, ip)->0),
    decreases entries.len(),
{
    if entries.len() > 0 {
        let prev = entries.drop_last();
        let n = entries.len() - 1;
        law_last_mac(prev, ip);
        if entries.last().0 == ip {
            assert(last_entry_for(entries, ip, n, last_mac(entries, ip)->0));
            assert(entries[n].0 == ip);
        } else {
            assert forall|k: int| 0 <= k < prev.len() implies #[trigger] prev[k].0 == entries[k].0 by {}
            if last_mac(prev, ip) is Some {
                let m = last_mac(prev, ip)->0;
                let k = choose|k: int| #[trigger] last_entry_for(prev, ip, k, m);
                assert(entries[k] == prev[k]);
                assert forall|j: int| k < j < entries.len() implies entries[j].0 != ip by {
                    if j < n {
                        assert(entries[j] == prev[j]);
                    }
                }
                assert(last_entry_for(entries, ip, k, m));
            } else {
                assert forall|k: int| 0 <= k < entries.len() implies #[trigger] entries[k].0 != ip by {
                    if k < n {
                        assert(prev[k].0 != ip);
                    }
                }
            }
        }
    }
}

/// The complete entries of the ARP table, from address to MAC address.
pub struct ArpTable {
    entries: Vec<(String, String)>,
}

impl ArpTable {
    /// The entries, in the order of the table's rows.
    pub closed spec fn entries(&self) -> Seq<(Seq<char>, Seq<char>)> {
        self.entries@.map_values(|e: (String, String)| (e.0@, e.1@))
    }

    /// The MAC address of `ip`, if the table holds it.
    pub fn get(&self, ip: &str) -> (r: Option<String>)
        ensures
            opt_view(r) == last_mac(self.entries(), ip@),
    {
        let ghost e = self.entries();
        let mut j = self.entries.len();
        assert(e.take(j as int) =~= e);
        while j > 0
            invariant
                j <= self.entries.len(),
                e == self.entries(),
                last_mac(e, ip@) == last_mac(e.take(j as int), ip@),
            decreases j,
        {
            let ghost t = e.take(j as int);
            assert(t.last() == (self.entries[j - 1].0@, self.entries[j - 1].1@));
            let key = chars_of(self.entries[j - 1].0.as_str());
            if chars_eq_str(&key, ip) {
                let mac = self.entries[j - 1].1.clone();
                assert(e.take(j as int).last().1 == mac@);
                return Some(mac);
            }
            assert(t.drop_last() =~= e.take(j - 1));
            j -= 1;
        }
        None
    }
}

/// The complete entries of the ARP table `content` (its header line first).
pub fn arp_table(content: &str) -> (r: ArpTable)
    ensures
        r.entries() == arp_entries(after_header(lines(content@))),
{
    let rows = lines_of(&chars_of(content));
    let ghost all = after_header(rows.deep_view());
    let mut entries: Vec<(String, String)> = Vec::new();
    let mut i: usize = if rows.len() > 0 { 1 } else { 0 };
    let start = i;
    assert(rows.deep_view().subrange(start as int, i as int) =~= Seq::<Seq<char>>::empty());
    while i < rows.len()
        invariant
            start <= i <= rows.len(),
            start == (if rows.len() > 0 { 1usize } else { 0usize }),
            entries@.map_values(|e: (String, String)| (e.0@, e.1@)) == arp_entries(
                rows.deep_view().subrange(start as int, i as int),
            ),
        decreases rows.len() - i,
    {
        let ghost t = rows.deep_view().subrange(start as int, i + 1);
        assert(t.drop_last() =~= rows.deep_view().subrange(start as int, i as int));
        assert(t.last() =~= rows[i as int]@);
        let cols = tokens_of(&rows[i]);
        if cols.len() >= 4 && !chars_eq_str(&cols[3], "00:00:00:00:00:00") {
            assert(cols.deep_view()[3] =~= cols[3]@);
            assert(cols.deep_view()[0] =~= cols[0]@);
            let ghost old = entries@;
            entries.push((string_from(&cols[0]), string_from(&cols[3])));
            assert(entries@.map_values(|e: (String, String)| (e.0@, e.1@)) =~= old.map_values(
                |e: (String, String)| (e.0@, e.1@),
            ).push((cols[0]@, cols[3]@)));
        } else {
            proof {
                if cols.len() >= 4 {
                    assert(cols.deep_view()[3] =~= cols[3]@);
                }
            }
        }
        i += 1;
    }
    assert(rows.deep_view().subrange(start as int, rows.len() as int) =~= after_header(
        rows.deep_view(),
    ));
    ArpTable { entries }
}

} // verus!
