//! The network scan: the local subnets to offer (from `ip -o -4 addr show`), the ports
//! that tell that a host is up, and the name that a reverse lookup gives.
use vstd::prelude::*;
use crate::ipv4::{spec_subnet_ips, subnet_ips};
use crate::text::{
    chars_eq_str, chars_of, decode_lossy, lines, lines_of, opt_view, parse_bounded, parse_number,
    split_once, split_once_char, string_from, tokens, tokens_of, trim_end_char, trim_end_matches,
    utf8_lossy,
};

verus! {

/// A local subnet that can be scanned.
pub struct SubnetInfo {
    pub interface: String,
    pub local_ip: String,
    pub prefix_len: u8,
    pub scan_count: usize,
}

/// The index of the first of `s` equal to `x`.
pub open spec fn position(s: Seq<Seq<char>>, x: Seq<char>) -> Option<int>
    decreases s.len(),
{
    if s.len() == 0 {
        None
    } else if s[0] == x {
        Some(0)
    } else {
        match position(s.drop_first(), x) {
            Some(i) => Some(i + 1),
            None => None,
        }
    }
}

/// The subnet that a line of `ip -o -4 addr show` offers, as interface, address and prefix
/// length: a line with at least four words, an interface (the second word without its
/// trailing colons) other than `lo`, and, after the first word `inet`, an `address/prefix`
/// whose prefix reads as a `u8` of at most 30.
pub open spec fn line_subnet(line: Seq<char>) -> Option<(Seq<char>, Seq<char>, u8)> {
    let parts = tokens(line);
    if parts.len() < 4 {
        None
    } else {
        let iface = trim_end_matches(parts[1], ':');
        if iface == "lo"@ {
            None
        } else {
            match position(parts, "inet"@) {
                Some(idx) => if idx + 1 < parts.len() {
                    match split_once(parts[idx + 1], '/') {
                        Some((ip, pre)) => match parse_bounded(pre, 255) {
                            Some(p) => if p <= 30 {
                                Some((iface, ip, p as u8))
                            } else {
                                None
                            },
                            None => None,
                        },
                        None => None,
                    }
                } else {
                    None
                },
                None => None,
            }
        }
    }
}

/// The subnets that the lines offer, in order, each with the number of addresses that a
/// scan of it probes.
pub open spec fn subnets_spec(ls: Seq<Seq<char>>) -> Seq<(Seq<char>, Seq<char>, u8, nat)>
    decreases ls.len(),
{
    if ls.len() == 0 {
        Seq::<(Seq<char>, Seq<char>, u8, nat)>::empty()
    } else {
        let prev = subnets_spec(ls.drop_last());
        match line_subnet(ls.last()) {
            Some((iface, ip, p)) => prev.push((iface, ip, p, spec_subnet_ips(ip, p).len())),
            None => prev,
        }
    }
}

/// The view of a subnet.
pub open spec fn subnet_view(s: SubnetInfo) -> (Seq<char>, Seq<char>, u8, nat) {
    (s.interface@, s.local_ip@, s.prefix_len, s.scan_count as nat)
}

fn find_word(parts: &Vec<Vec<char>>, w: &str) -> (r: Option<usize>)
    ensures
        match r {
            Some(i) => i < parts.len() && position(parts.deep_view(), w@) == Some(i as int),
            None => position(parts.deep_view(), w@) is None,
        },
{
    let ghost d = parts.deep_view();
    let mut i: usize = 0;
    assert(d.skip(0) =~= d);
    while i < parts.len()
        invariant
            i <= parts.len(),
            d == parts.deep_view(),
            position(d, w@) == (match position(d.skip(i as int), w@) {
                Some(k) => Some(k + i),
                None => None,
            }),
        decreases parts.len() - i,
    {
        assert(d.skip(i as int)[0] =~= parts[i as int]@);
        if chars_eq_str(&parts[i], w) {
            return Some(i);
        }
        assert(d.skip(i as int).drop_first() =~= d.skip(i + 1));
        i += 1;
    }
    None
}

fn line_subnet_exec(line: &Vec<char>) -> (r: Option<(Vec<char>, Vec<char>, u8)>)
    ensures
        match r {
            Some(t) => line_subnet(line@) == Some((t.0@, t.1@, t.2)),
            None => line_subnet(line@) is None,
        },
{
    let parts = tokens_of(line);
    if parts.len() < 4 {
        return None;
    }
    let iface = trim_end_char(&parts[1], ':');
    assert(parts.deep_view()[1] =~= parts[1]@);
    if chars_eq_str(&iface, "lo") {
        return None;
    }
    match find_word(&parts, "inet") {
        Some(idx) => {
            if idx + 1 < parts.len() {
                assert(parts.deep_view()[idx + 1] =~= parts[idx + 1]@);
                match split_once_char(&parts[idx + 1], '/') {
                    Some((ip, pre)) => match parse_number(&pre, 255) {
                        Some(p) => {
                            if p <= 30 {
                                Some((iface, ip, p as u8))
                            } else {
                                None
                            }
                        },
                        None => None,
                    },
                    None => None,
                }
            } else {
                None
            }
        },
        None => None,
    }
}

/// The subnets that the output of `ip -o -4 addr show` offers for a scan.
pub fn parse_subnets(output: &str) -> (r: Vec<SubnetInfo>)
    ensures
        r@.map_values(|s: SubnetInfo| subnet_view(s)) == subnets_spec(lines(output@)),
{
    let ls = lines_of(&chars_of(output));
    let mut out: Vec<SubnetInfo> = Vec::new();
    let mut i: usize = 0;
    assert(ls.deep_view().take(0) =~= Seq::<Seq<char>>::empty());
    while i < ls.len()
        invariant
            i <= ls.len(),
            out@.map_values(|s: SubnetInfo| subnet_view(s)) == subnets_spec(
                ls.deep_view().take(i as int),
            ),
        decreases ls.len() - i,
    {
        let ghost t = ls.deep_view().take(i + 1);
        assert(t.drop_last() =~= ls.deep_view().take(i as int));
        assert(t.last() =~= ls[i as int]@);
        match line_subnet_exec(&ls[i]) {
            Some((iface, ip, p)) => {
                let local_ip = string_from(&ip);
                let scan_count = subnet_ips(local_ip.as_str(), p).len();
                let info = SubnetInfo {
                    interface: string_from(&iface),
                    local_ip,
                    prefix_len: p,
                    scan_count,
                };
                let ghost old = out@;
                out.push(info);
                assert(out@.map_values(|s: SubnetInfo| subnet_view(s)) =~= old.map_values(
                    |s: SubnetInfo| subnet_view(s),
                ).push(subnet_view(info)));
            },
            None => {},
        }
        i += 1;
    }
    assert(ls.deep_view().take(ls.len() as int) =~= ls.deep_view());
    out
}

/// The ports that a scan tries, in order, to tell whether a host is up.
pub fn probe_ports() -> (r: Vec<u16>)
    ensures
        r@ == seq![22u16, 80, 443, 8080, 8443, 53, 21, 25, 3306, 5432],
{
    let r = vec![22u16, 80, 443, 8080, 8443, 53, 21, 25, 3306, 5432];
    assert(r@ =~= seq![22u16, 80, 443, 8080, 8443, 53, 21, 25, 3306, 5432]);
    r
}

/// The host name in the output of `getent hosts ADDRESS` (`ADDRESS  NAME ALIASES...`):
/// its second word.
pub fn hostname_from_getent(out: &[u8]) -> (r: Option<String>)
    ensures
        opt_view(r) == (if tokens(utf8_lossy(out@)).len() > 1 {
            Some(tokens(utf8_lossy(out@))[1])
        } else {
            None
        }),
{
    let text = decode_lossy(out);
    let words = tokens_of(&chars_of(text.as_str()));
    if words.len() > 1 {
        assert(words.deep_view()[1] =~= words[1]@);
        Some(string_from(&words[1]))
    } else {
        None
    }
}

} // verus!
