//! Name resolution results: the IPv4 addresses of a host, and the records of a domain.
use vstd::prelude::*;
use crate::ipv4::{ip_text, u32_to_ip};
use crate::text::{
    decimal, decode_lossy, opt_view, push_decimal, str_trim_end_char, trim_end_matches,
    utf8_lossy,
};

verus! {

/// A host name without its trailing dots, as it is looked up.
pub fn normalize_host(host: &str) -> (r: String)
    ensures
        r@ == trim_end_matches(host@, '.'),
{
    str_trim_end_char(host, '.')
}

/// The first IPv4 address among the results of a lookup (`None` stands for an IPv6 result).
pub open spec fn first_some(addrs: Seq<Option<u32>>) -> Option<u32>
    decreases addrs.len(),
{
    if addrs.len() == 0 {
        None
    } else if addrs[0] is Some {
        addrs[0]
    } else {
        first_some(addrs.drop_first())
    }
}

/// The first IPv4 address among the results of a lookup.
pub fn first_ipv4(addrs: &Vec<Option<u32>>) -> (r: Option<u32>)
    ensures
        r == first_some(addrs@),
{
    let mut i: usize = 0;
    assert(addrs@.skip(0) =~= addrs@);
    while i < addrs.len()
        invariant
            i <= addrs.len(),
            first_some(addrs@) == first_some(addrs@.skip(i as int)),
        decreases addrs.len() - i,
    {
        assert(addrs@.skip(i as int)[0] == addrs@[i as int]);
        if addrs[i].is_some() {
            return addrs[i];
        }
        assert(addrs@.skip(i as int).drop_first() =~= addrs@.skip(i + 1));
        i += 1;
    }
    None
}

/// The texts of the IPv4 addresses among the results of a lookup, in order.
pub open spec fn ipv4_texts(addrs: Seq<Option<u32>>) -> Seq<Seq<char>>
    decreases addrs.len(),
{
    if addrs.len() == 0 {
        Seq::<Seq<char>>::empty()
    } else {
        let prev = ipv4_texts(addrs.drop_last());
        match addrs.last() {
            Some(a) => prev.push(ip_text(a)),
            None => prev,
        }
    }
}

/// `s` with every repetition after the first left out.
pub open spec fn dedup(s: Seq<Seq<char>>) -> Seq<Seq<char>>
    decreases s.len(),
{
    if s.len() == 0 {
        s
    } else {
        let prev = dedup(s.drop_last());
        if prev.contains(s.last()) {
            prev
        } else {
            prev.push(s.last())
        }
    }
}

/// The addresses of a host.
pub struct DnsResult {
    pub addresses: Vec<String>,
    pub error: Option<String>,
}

/// What the address check reports for a lookup: the IPv4 addresses it gave, each once and
/// in order, or an error when it failed or gave none.
pub open spec fn dns_result_holds(lookup: Result<Vec<Option<u32>>, String>, r: DnsResult) -> bool {
    match lookup {
        Ok(addrs) => {
            let found = dedup(ipv4_texts(addrs@));
            if found.len() == 0 {
                r.addresses@.len() == 0 && opt_view(r.error) == Some("No IPv4 addresses found"@)
            } else {
                r.addresses.deep_view() == found && r.error is None
            }
        },
        Err(e) => r.addresses@.len() == 0 && opt_view(r.error) == Some(e@),
    }
}

fn contains_string(v: &Vec<String>, s: &String) -> (r: bool)
    ensures
        r == v.deep_view().contains(s@),
{
    let mut i: usize = 0;
    while i < v.len()
        invariant
            i <= v.len(),
            forall|k: int| 0 <= k < i ==> v.deep_view()[k] != s@,
        decreases v.len() - i,
    {
        if v[i] == *s {
            assert(v.deep_view()[i as int] == s@);
            return true;
        }
        i += 1;
    }
    false
}

/// The result of the address check for a lookup.
pub fn dns_result(lookup: Result<Vec<Option<u32>>, String>) -> (r: DnsResult)
    ensures
        dns_result_holds(lookup, r),
{
    match lookup {
        Ok(addrs) => {
            let mut out: Vec<String> = Vec::new();
            let mut i: usize = 0;
            assert(addrs@.take(0) =~= Seq::<Option<u32>>::empty());
            while i < addrs.len()
                invariant
                    i <= addrs.len(),
                    out.deep_view() == dedup(ipv4_texts(addrs@.take(i as int))),
                decreases addrs.len() - i,
            {
                let ghost t = addrs@.take(i + 1);
                assert(t.drop_last() =~= addrs@.take(i as int));
                assert(t.last() == addrs@[i as int]);
                match addrs[i] {
                    Some(a) => {
                        let ghost it = ipv4_texts(t);
                        assert(it == ipv4_texts(addrs@.take(i as int)).push(ip_text(a)));
                        assert(it.drop_last() =~= ipv4_texts(addrs@.take(i as int)));
                        let text = u32_to_ip(a);
                        if !contains_string(&out, &text) {
                            let ghost old_out = out.deep_view();
                            out.push(text);
                            assert(out.deep_view() =~~= old_out.push(text@));
                        }
                    },
                    None => {},
                }
                i += 1;
            }
            assert(addrs@.take(addrs.len() as int) =~= addrs@);
            if out.len() == 0 {
                DnsResult { addresses: out, error: Some("No IPv4 addresses found".to_owned()) }
            } else {
                DnsResult { addresses: out, error: None }
            }
        },
        Err(e) => DnsResult { addresses: Vec::new(), error: Some(e) },
    }
}

/// The records of a domain.
pub struct DnsRecordsResult {
    pub a: Vec<String>,
    pub mx: Vec<String>,
    pub ns: Vec<String>,
    pub txt: Vec<String>,
    pub cname: Vec<String>,
    pub error: Option<String>,
}

/// The records that one lookup gave, or none when it failed.
pub open spec fn found(r: Result<Vec<String>, String>) -> Seq<Seq<char>> {
    match r {
        Ok(v) => v.deep_view(),
        Err(_) => Seq::<Seq<char>>::empty(),
    }
}

/// The error of the first lookup that failed, in the order A, MX, NS, TXT, CNAME.
pub open spec fn first_error(
    a: Result<Vec<String>, String>,
    mx: Result<Vec<String>, String>,
    ns: Result<Vec<String>, String>,
    txt: Result<Vec<String>, String>,
    cname: Result<Vec<String>, String>,
) -> Option<Seq<char>> {
    match (a, mx, ns, txt, cname) {
        (Err(e), _, _, _, _) => Some(e@),
        (_, Err(e), _, _, _) => Some(e@),
        (_, _, Err(e), _, _) => Some(e@),
        (_, _, _, Err(e), _) => Some(e@),
        (_, _, _, _, Err(e)) => Some(e@),
        _ => None,
    }
}

fn take_found(r: Result<Vec<String>, String>, first_err: &mut Option<String>) -> (v: Vec<String>)
    ensures
        v.deep_view() == found(r),
        opt_view(*final(first_err)) == (match *old(first_err) {
            Some(e) => Some(e@),
            None => match r {
                Err(e) => Some(e@),
                Ok(_) => None,
            },
        }),
{
    match r {
        Ok(v) => v,
        Err(e) => {
            if first_err.is_none() {
                *first_err = Some(e);
            }
            Vec::new()
        },
    }
}

/// The records of a domain from its five lookups: what each gave, and the first error
/// when none of them gave anything.
pub fn dns_records_result(
    a: Result<Vec<String>, String>,
    mx: Result<Vec<String>, String>,
    ns: Result<Vec<String>, String>,
    txt: Result<Vec<String>, String>,
    cname: Result<Vec<String>, String>,
) -> (r: DnsRecordsResult)
    ensures
        r.a.deep_view() == found(a),
        r.mx.deep_view() == found(mx),
        r.ns.deep_view() == found(ns),
        r.txt.deep_view() == found(txt),
        r.cname.deep_view() == found(cname),
        opt_view(r.error) == (if found(a).len() == 0 && found(mx).len() == 0 && found(ns).len() == 0
            && found(txt).len() == 0 && found(cname).len() == 0 {
            first_error(a, mx, ns, txt, cname)
        } else {
            None
        }),
{
    let ghost (ga, gmx, gns, gtxt, gcname) = (a, mx, ns, txt, cname);
    let mut first_err: Option<String> = None;
    let va = take_found(a, &mut first_err);
    let vmx = take_found(mx, &mut first_err);
    let vns = take_found(ns, &mut first_err);
    let vtxt = take_found(txt, &mut first_err);
    let vcname = take_found(cname, &mut first_err);
    assert(opt_view(first_err) == first_error(ga, gmx, gns, gtxt, gcname));
    let error = if va.len() == 0 && vmx.len() == 0 && vns.len() == 0 && vtxt.len() == 0
        && vcname.len() == 0 {
        first_err
    } else {
        None
    };
    DnsRecordsResult { a: va, mx: vmx, ns: vns, txt: vtxt, cname: vcname, error }
}

/// The text of a mail exchanger record: its preference, a space, then the exchange.
pub fn mx_text(preference: u16, exchange: &str) -> (r: String)
    ensures
        r@ == decimal(preference as nat) + " "@ + exchange@,
{
    let mut r = String::new();
    push_decimal(&mut r, preference as u64);
    r.append(" ");
    r.append(exchange);
    r
}

/// The text of a TXT record made of `chunks`: each chunk decoded as UTF-8 with
/// replacement, joined with nothing between them.
pub open spec fn txt_spec(chunks: Seq<Seq<u8>>) -> Seq<char>
    decreases chunks.len(),
{
    if chunks.len() == 0 {
        Seq::<char>::empty()
    } else {
        txt_spec(chunks.drop_last()) + utf8_lossy(chunks.last())
    }
}

/// The text of a TXT record.
pub fn txt_text(chunks: &Vec<Vec<u8>>) -> (r: String)
    ensures
        r@ == txt_spec(chunks.deep_view()),
{
    let mut r = String::new();
    let mut i: usize = 0;
    assert(chunks.deep_view().take(0) =~= Seq::<Seq<u8>>::empty());
    while i < chunks.len()
        invariant
            i <= chunks.len(),
            r@ == txt_spec(chunks.deep_view().take(i as int)),
        decreases chunks.len() - i,
    {
        let part = decode_lossy(chunks[i].as_slice());
        let ghost t = chunks.deep_view().take(i + 1);
        assert(t.drop_last() =~= chunks.deep_view().take(i as int));
        assert(t.last() =~= chunks[i as int]@);
        r.append(part.as_str());
        i += 1;
    }
    assert(chunks.deep_view().take(chunks.len() as int) =~= chunks.deep_view());
    r
}


/// The addresses that the address check reports are all different.
pub proof fn law_dedup_distinct(s: Seq<Seq<char>>)
    ensures
        forall|i: int, j: int|
            0 <= i < j < dedup(s).len() ==> #[trigger] dedup(s)[i] != #[trigger] dedup(s)[j],
    decreases s.len(),
{
    if s.len() > 0 {
        law_dedup_distinct(s.drop_last());
        let prev = dedup(s.drop_last());
        let d = dedup(s);
        if !prev.contains(s.last()) {
            assert forall|i: int, j: int| 0 <= i < j < d.len() implies #[trigger] d[i]
                != #[trigger] d[j] by {
                if j == d.len() - 1 {
                    assert(d[i] == prev[i]);
                    if d[i] == d[j] {
                        assert(prev.contains(s.last()));
                    }
                } else {
                    assert(d[i] == prev[i] && d[j] == prev[j]);
                }
            }
        }
    }
}

/// The address check leaves out no address that the lookup gave, and adds none.
pub proof fn law_dedup_same_members(s: Seq<Seq<char>>)
    ensures
        forall|x: Seq<char>| dedup(s).contains(x) <==> s.contains(x),
    decreases s.len(),
{
    if s.len() > 0 {
        law_dedup_same_members(s.drop_last());
        let prev = dedup(s.drop_last());
        let d = dedup(s);
        assert forall|x: Seq<char>| d.contains(x) <==> s.contains(x) by {
            if s.contains(x) {
                let k = choose|k: int| 0 <= k < s.len() && s[k] == x;
                if k < s.len() - 1 {
                    assert(s.drop_last()[k] == x);
                    assert(s.drop_last().contains(x));
                    assert(prev.contains(x));
                    let m = choose|m: int| 0 <= m < prev.len() && prev[m] == x;
                    if !prev.contains(s.last()) {
                        assert(d[m] == x);
                    }
                } else if !prev.contains(s.last()) {
                    assert(d[d.len() - 1] == x);
                }
            }
            if d.contains(x) {
                let m = choose|m: int| 0 <= m < d.len() && d[m] == x;
                if prev.contains(s.last()) || m < d.len() - 1 {
                    if m < prev.len() {
                        assert(prev[m] == x);
                        assert(prev.contains(x));
                    } else {
                        assert(x == s.last());
                    }
                    if prev.contains(x) {
                        assert(s.drop_last().contains(x));
                        let k = choose|k: int| 0 <= k < s.drop_last().len() && s.drop_last()[k] == x;
                        assert(s[k] == x);
                    } else {
                        assert(s[s.len() - 1] == x);
                    }
                } else {
                    assert(s[s.len() - 1] == x);
                }
            }
        }
    }
}


/// The texts of the IPv4 results of a lookup are exactly the texts of the addresses that it
/// gave.
proof fn lemma_ipv4_texts_members(addrs: Seq<Option<u32>>)
    ensures
        forall|k: int|
            0 <= k < addrs.len() && addrs[k] is Some ==> #[trigger] ipv4_texts(addrs).contains(
                ip_text(addrs[k]->0),
            ),
        forall|x: Seq<char>|
            ipv4_texts(addrs).contains(x) ==> exists|k: int|
                0 <= k < addrs.len() && addrs[k] is Some && ip_text(addrs[k]->0) == x,
    decreases addrs.len(),
{
    if addrs.len() > 0 {
        let prev = addrs.drop_last();
        lemma_ipv4_texts_members(prev);
        let t = ipv4_texts(addrs);
        let pt = ipv4_texts(prev);
        assert forall|k: int| 0 <= k < addrs.len() && addrs[k] is Some implies #[trigger] t.contains(
            ip_text(addrs[k]->0),
        ) by {
            if k < addrs.len() - 1 {
                assert(prev[k] == addrs[k]);
                assert(pt.contains(ip_text(prev[k]->0)));
                let m = choose|m: int| 0 <= m < pt.len() && pt[m] == ip_text(prev[k]->0);
                assert(t[m] == pt[m]);
            } else {
                assert(t[t.len() - 1] == ip_text(addrs[k]->0));
            }
        }
        assert forall|x: Seq<char>| t.contains(x) implies exists|k: int|
            0 <= k < addrs.len() && addrs[k] is Some && ip_text(addrs[k]->0) == x by {
            let m = choose|m: int| 0 <= m < t.len() && t[m] == x;
            if m < pt.len() {
                assert(pt[m] == x);
                assert(pt.contains(x));
                let k = choose|k: int|
                    0 <= k < prev.len() && prev[k] is Some && ip_text(prev[k]->0) == x;
                assert(addrs[k] == prev[k]);
            } else {
                let k = addrs.len() - 1;
                assert(addrs[k] is Some && ip_text(addrs[k]->0) == x);
            }
        }
    }
}

/// Whether one of the results of a lookup is the IPv4 address whose text is `x`.
pub open spec fn gave_address(addrs: Seq<Option<u32>>, x: Seq<char>) -> bool {
    exists|k: int| 0 <= k < addrs.len() && addrs[k] is Some && ip_text(addrs[k]->0) == x
}

/// A lookup that succeeded is reported with every IPv4 address that it gave, each once, and
/// with no other; and with no error when it gave at least one.
pub proof fn law_dns_result_addresses(lookup: Result<Vec<Option<u32>>, String>, r: DnsResult)
    requires
        lookup is Ok,
        dns_result_holds(lookup, r),
    ensures
        forall|k: int|
            0 <= k < lookup->Ok_0@.len() && lookup->Ok_0@[k] is Some
                ==> #[trigger] r.addresses.deep_view().contains(ip_text(lookup->Ok_0@[k]->0)),
        forall|i: int|
            0 <= i < r.addresses.deep_view().len() ==> gave_address(
                lookup->Ok_0@,
                #[trigger] r.addresses.deep_view()[i],
            ),
        forall|i: int, j: int|
            0 <= i < j < r.addresses.deep_view().len() ==> #[trigger] r.addresses.deep_view()[i]
                != #[trigger] r.addresses.deep_view()[j],
        (exists|k: int| 0 <= k < lookup->Ok_0@.len() && lookup->Ok_0@[k] is Some) ==> r.error is None,
{
    let addrs = lookup->Ok_0@;
    let texts = ipv4_texts(addrs);
    let found = dedup(texts);
    lemma_ipv4_texts_members(addrs);
    law_dedup_same_members(texts);
    law_dedup_distinct(texts);
    let out = r.addresses.deep_view();
    if found.len() == 0 {
        assert forall|k: int| 0 <= k < addrs.len() && addrs[k] is Some implies false by {
            assert(texts.contains(ip_text(addrs[k]->0)));
            assert(found.contains(ip_text(addrs[k]->0)));
        }
        assert(out.len() == r.addresses@.len());
        assert(out.len() == 0);
    } else {
        assert(out == found);
        assert forall|k: int| 0 <= k < addrs.len() && addrs[k] is Some implies #[trigger] out.contains(
            ip_text(addrs[k]->0),
        ) by {
            assert(texts.contains(ip_text(addrs[k]->0)));
        }
        assert forall|i: int| 0 <= i < out.len() implies gave_address(addrs, #[trigger] out[i]) by {
            assert(found.contains(out[i]));
            assert(texts.contains(out[i]));
            let k = choose|k: int|
                0 <= k < addrs.len() && addrs[k] is Some && ip_text(addrs[k]->0) == out[i];
            assert(addrs[k] is Some && ip_text(addrs[k]->0) == out[i]);
        }
    }
}

} // verus!
