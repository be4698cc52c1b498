//! IPv4 addresses as text and as numbers, and the host addresses of a local subnet.
use vstd::prelude::*;
use vstd::arithmetic::power2::pow2;
use vstd::bits::lemma_u32_shl_is_mul;
use crate::text::{
    all_digits, chars_of, decimal, digit_char, digit_value, digits_value, lemma_decimal_reads_back,
    lemma_digit_char, is_digit, count_char, join, lemma_count_char_add, lemma_count_char_none,
    lemma_join_split, lemma_split_join, lemma_split_no_sep, parse_bounded, parse_number, push_char, push_decimal,
    split, split_chars,
};

verus! {

/// The octets that the pieces of a dotted address give, in order: each piece that reads as
/// a `u8` gives one octet, and a piece that does not is passed over.
pub open spec fn dotted_octets(pieces: Seq<Seq<char>>) -> Seq<nat>
    decreases pieces.len(),
{
    if pieces.len() == 0 {
        Seq::<nat>::empty()
    } else {
        let prev = dotted_octets(pieces.drop_last());
        match parse_bounded(pieces.last(), 255) {
            Some(v) => prev.push(v),
            None => prev,
        }
    }
}

/// Every octet that the pieces give is at most 255.
pub proof fn lemma_dotted_octets_bounded(pieces: Seq<Seq<char>>)
    ensures
        forall|k: int|
            0 <= k < dotted_octets(pieces).len() ==> #[trigger] dotted_octets(pieces)[k] <= 255,
    decreases pieces.len(),
{
    if pieces.len() > 0 {
        let prev = dotted_octets(pieces.drop_last());
        lemma_dotted_octets_bounded(pieces.drop_last());
        let r = dotted_octets(pieces);
        assert forall|k: int| 0 <= k < r.len() implies #[trigger] r[k] <= 255 by {
            if k < prev.len() {
                assert(r[k] == prev[k]);
            }
        }
    }
}

/// The number of the address whose octets are `o`, most significant first.
pub open spec fn octets_value(o: Seq<nat>) -> nat {
    o[0] * 16777216 + o[1] * 65536 + o[2] * 256 + o[3]
}

/// What `ip_to_u32` reads from `s`: the pieces between dots that read as `u8`, if there are
/// exactly four of them.
pub open spec fn spec_ip_to_u32(s: Seq<char>) -> Option<u32> {
    let o = dotted_octets(split(s, '.'));
    if o.len() == 4 {
        Some(octets_value(o) as u32)
    } else {
        None
    }
}

/// Octet `k` of `n`, counting from the most significant (`k` from 0 to 3).
pub open spec fn octet(n: u32, k: int) -> nat {
    if k == 0 {
        (n / 16777216) as nat
    } else if k == 1 {
        ((n / 65536) % 256) as nat
    } else if k == 2 {
        ((n / 256) % 256) as nat
    } else {
        (n % 256) as nat
    }
}

/// The dotted-decimal text of `n`.
pub open spec fn ip_text(n: u32) -> Seq<char> {
    decimal(octet(n, 0)) + seq!['.'] + decimal(octet(n, 1)) + seq!['.'] + decimal(octet(n, 2))
        + seq!['.'] + decimal(octet(n, 3))
}

/// Reads a dotted IPv4 address: the text is cut at each `.`, the pieces that read as a
/// `u8` are kept, and there must be exactly four of them.
pub fn ip_to_u32(ip: &str) -> (r: Option<u32>)
    ensures
        r == spec_ip_to_u32(ip@),
{
    let chars = chars_of(ip);
    let pieces = split_chars(&chars, '.');
    let mut octets: Vec<u64> = Vec::new();
    let mut i: usize = 0;
    assert(pieces.deep_view().take(0) =~= Seq::<Seq<char>>::empty());
    while i < pieces.len()
        invariant
            i <= pieces.len(),
            pieces.deep_view() == split(ip@, '.'),
            octets@.len() == dotted_octets(pieces.deep_view().take(i as int)).len(),
            forall|k: int|
                0 <= k < octets@.len() ==> octets@[k] as nat == #[trigger] dotted_octets(
                    pieces.deep_view().take(i as int),
                )[k],
        decreases pieces.len() - i,
    {
        let ghost t = pieces.deep_view().take(i + 1);
        assert(t.drop_last() =~= pieces.deep_view().take(i as int));
        assert(t.last() == pieces[i as int]@);
        let parsed = parse_number(&pieces[i], 255);
        match parsed {
            Some(v) => {
                octets.push(v);
            },
            None => {},
        }
        i += 1;
    }
    assert(pieces.deep_view().take(pieces.len() as int) =~= pieces.deep_view());
    if octets.len() != 4 {
        return None;
    }
    let ghost o = dotted_octets(split(ip@, '.'));
    proof {
        lemma_dotted_octets_bounded(split(ip@, '.'));
        assert(o[0] == octets@[0] as nat);
        assert(o[1] == octets@[1] as nat);
        assert(o[2] == octets@[2] as nat);
        assert(o[3] == octets@[3] as nat);
    }
    let value = octets[0] * 16777216 + octets[1] * 65536 + octets[2] * 256 + octets[3];
    Some(value as u32)
}

/// The dotted-decimal text of `n`.
pub fn u32_to_ip(n: u32) -> (s: String)
    ensures
        s@ == ip_text(n),
{
    let mut s = String::new();
    push_decimal(&mut s, (n / 16777216) as u64);
    push_char(&mut s, '.');
    push_decimal(&mut s, (n / 65536 % 256) as u64);
    push_char(&mut s, '.');
    push_decimal(&mut s, (n / 256 % 256) as u64);
    push_char(&mut s, '.');
    push_decimal(&mut s, (n % 256) as u64);
    assert(s@ =~= ip_text(n));
    s
}


/// The text of a dotted octet is one piece when cut at dots, and reads back as the octet.
proof fn lemma_octet_piece(v: nat)
    requires
        v <= 255,
    ensures
        split(decimal(v), '.') == seq![decimal(v)],
        parse_bounded(decimal(v), 255) == Some(v),
{
    lemma_decimal_reads_back(v);
    lemma_split_no_sep(decimal(v), '.');
}

/// Reading back the dotted-decimal text of an address gives the address.
#[verifier::spinoff_prover]
#[verifier::rlimit(40)]
pub proof fn law_ip_text_reads_back(n: u32)
    ensures
        spec_ip_to_u32(ip_text(n)) == Some(n),
{
    let a = decimal(octet(n, 0));
    let b = decimal(octet(n, 1));
    let c = decimal(octet(n, 2));
    let d = decimal(octet(n, 3));
    lemma_octet_piece(octet(n, 0));
    lemma_octet_piece(octet(n, 1));
    lemma_octet_piece(octet(n, 2));
    lemma_octet_piece(octet(n, 3));
    lemma_split_join(a, b, '.');
    lemma_split_join(a + seq!['.'] + b, c, '.');
    lemma_split_join(a + seq!['.'] + b + seq!['.'] + c, d, '.');
    let pieces = split(ip_text(n), '.');
    assert(pieces =~= seq![a, b, c, d]);
    reveal_with_fuel(dotted_octets, 5);
    assert(pieces.drop_last() =~= seq![a, b, c]);
    assert(pieces.drop_last().drop_last() =~= seq![a, b]);
    assert(pieces.drop_last().drop_last().drop_last() =~= seq![a]);
    assert(pieces.drop_last().drop_last().drop_last().drop_last() =~= Seq::<Seq<char>>::empty());
    let o = dotted_octets(pieces);
    assert(o =~= seq![octet(n, 0), octet(n, 1), octet(n, 2), octet(n, 3)]);
    assert(octets_value(o) == n as nat);
}


/// The prefix length that a scan uses: subnets larger than a /24 are cut down to the /24
/// that holds the local address.
pub open spec fn scan_prefix(prefix_len: u8) -> nat {
    if prefix_len < 24 { 24 } else { prefix_len as nat }
}

/// The number of addresses in the block that a scan covers.
pub open spec fn block_size(prefix_len: u8) -> nat {
    pow2((32 - scan_prefix(prefix_len)) as nat)
}

/// The first address (the network address) of the block around `host`.
pub open spec fn block_start(host: u32, prefix_len: u8) -> nat {
    (host as int - (host as int) % (block_size(prefix_len) as int)) as nat
}

/// The addresses that a scan of the block around `host` probes: every address of the
/// block but its first (the network) and its last (the broadcast), in increasing order.
pub open spec fn scan_hosts(host: u32, prefix_len: u8) -> Seq<u32> {
    let n = if block_size(prefix_len) >= 2 { (block_size(prefix_len) - 2) as nat } else { 0 };
    Seq::new(n, |i: int| (block_start(host, prefix_len) + 1 + i) as u32)
}

/// The texts of the addresses that a scan probes, for a local address and prefix length.
pub open spec fn spec_subnet_ips(local_ip: Seq<char>, prefix_len: u8) -> Seq<Seq<char>> {
    match spec_ip_to_u32(local_ip) {
        Some(host) => scan_hosts(host, prefix_len).map_values(|a: u32| ip_text(a)),
        None => Seq::<Seq<char>>::empty(),
    }
}

/// Whether `subnet_ips` can work on these arguments without overflow: a prefix length of
/// at most 32, and no /32 around the last address.
pub open spec fn subnet_args_ok(local_ip: Seq<char>, prefix_len: u8) -> bool {
    &&& prefix_len <= 32
    &&& !(prefix_len == 32 && spec_ip_to_u32(local_ip) == Some(u32::MAX))
}

proof fn lemma_block_bits(host: u32, k: u32)
    requires
        k <= 8,
    ensures
        (1u32 << k) as nat == pow2(k as nat),
        1 <= (1u32 << k) <= 256,
        host & !(((1u32 << k) - 1) as u32) == host - host % (1u32 << k),
        (host & !(((1u32 << k) - 1) as u32)) | !(!(((1u32 << k) - 1) as u32)) == (host & !(((1u32 << k) - 1) as u32)) + (
        1u32 << k) - 1,
{
    vstd::arithmetic::power2::lemma2_to64();
    vstd::arithmetic::power2::lemma_pow2_strictly_increases(k as nat, 9);
    lemma_u32_shl_is_mul(1, k);
    assert(k <= 8 ==> 1 <= (1u32 << k) <= 256) by (bit_vector);
    assert(k <= 8 ==> host & !(((1u32 << k) - 1) as u32) == host - host % (1u32 << k)) by (bit_vector);
    assert(k <= 8 ==> (host & !(((1u32 << k) - 1) as u32)) | !(!(((1u32 << k) - 1) as u32)) == (host & !(((1u32 << k) - 1) as u32)) + (1u32 << k) - 1) by (bit_vector);
}

/// The texts of the addresses to probe for a local address and prefix length: every
/// address of the subnet but the network and broadcast addresses, where a subnet larger
/// than a /24 is cut down to the /24 that holds the local address. An address that does not
/// read gives none.
pub fn subnet_ips(local_ip: &str, prefix_len: u8) -> (r: Vec<String>)
    requires
        subnet_args_ok(local_ip@, prefix_len),
    ensures
        r.deep_view() == spec_subnet_ips(local_ip@, prefix_len),
{
    let effective: u8 = if prefix_len < 24 { 24 } else { prefix_len };
    let host = match ip_to_u32(local_ip) {
        Some(h) => h,
        None => {
            return Vec::new();
        },
    };
    let k: u32 = (32 - effective) as u32;
    proof {
        lemma_block_bits(host, k);
    }
    let mask: u32 = !((1u32 << k) - 1);
    let network = host & mask;
    let broadcast = network | !mask;
    let ghost hosts = scan_hosts(host, prefix_len);
    assert(block_size(prefix_len) == (1u32 << k) as nat);
    assert(network as nat == block_start(host, prefix_len));
    let mut out: Vec<String> = Vec::new();
    if network < broadcast {
        let mut a: u32 = network + 1;
        while a < broadcast
            invariant
                network < broadcast,
                network + 1 <= a <= broadcast,
                broadcast as nat == network as nat + block_size(prefix_len) - 1,
                network as nat == block_start(host, prefix_len),
                hosts == scan_hosts(host, prefix_len),
                out.deep_view() == hosts.take(a - network - 1).map_values(|b: u32| ip_text(b)),
            decreases broadcast - a,
        {
            let text = u32_to_ip(a);
            let ghost old_out = out.deep_view();
            out.push(text);
            assert(hosts[a - network - 1] == a);
            assert(hosts.take(a - network).map_values(|b: u32| ip_text(b)) =~= hosts.take(
                a - network - 1,
            ).map_values(|b: u32| ip_text(b)).push(ip_text(a)));
            assert(out.deep_view() =~~= old_out.push(text@));
            a = a + 1;
        }
        assert(hosts.take(a - network - 1) =~= hosts);
    } else {
        assert(hosts.map_values(|b: u32| ip_text(b)) =~= Seq::<Seq<char>>::empty());
        assert(out.deep_view() =~~= Seq::<Seq<char>>::empty());
    }
    out
}


proof fn lemma_block_size_range(prefix_len: u8)
    requires
        prefix_len <= 32,
    ensures
        1 <= block_size(prefix_len) <= 256,
        prefix_len <= 24 ==> block_size(prefix_len) == 256,
{
    vstd::arithmetic::power2::lemma2_to64();
    let e = (32 - scan_prefix(prefix_len)) as nat;
    if e < 8 {
        vstd::arithmetic::power2::lemma_pow2_strictly_increases(e, 8);
    }
    vstd::arithmetic::power2::lemma_pow2_pos(e);
}

/// A scan probes at most 254 addresses, and all 254 host addresses of the /24 around the
/// local address when the subnet is a /24 or larger.
pub proof fn law_scan_size(host: u32, prefix_len: u8)
    requires
        prefix_len <= 32,
    ensures
        scan_hosts(host, prefix_len).len() <= 254,
        prefix_len <= 24 ==> scan_hosts(host, prefix_len).len() == 254,
{
    lemma_block_size_range(prefix_len);
}

proof fn lemma_block_facts(host: u32, prefix_len: u8)
    requires
        prefix_len <= 32,
    ensures
        ({
            let b = block_size(prefix_len) as int;
            let h = host as int;
            let start = h - h % b;
            &&& 1 <= b <= 256
            &&& 0 <= h % b < b
            &&& start <= h < start + b
            &&& start + b <= 0x1_0000_0000
            &&& block_start(host, prefix_len) == start
            &&& forall|j: int| 0 <= j < b ==> (#[trigger] (start + j)) - (start + j) % b == start
        }),
{
    lemma_block_size_range(prefix_len);
    let b = block_size(prefix_len) as int;
    let h = host as int;
    let start = h - h % b;
    assert(0 <= h % b < b) by (nonlinear_arith)
        requires
            b > 0,
    ;
    let e = (32 - scan_prefix(prefix_len)) as nat;
    let m = pow2((32 - e) as nat) as int;
    vstd::arithmetic::power2::lemma_pow2_adds(e, (32 - e) as nat);
    vstd::arithmetic::power2::lemma2_to64();
    assert(b * m == 0x1_0000_0000);
    assert(start + b <= 0x1_0000_0000) by (nonlinear_arith)
        requires
            b > 0,
            b * m == 0x1_0000_0000,
            0 <= h < 0x1_0000_0000,
            start == h - h % b,
    {
        assert(h == b * (h / b) + h % b);
        assert(h / b < m);
        assert(start == b * (h / b));
        assert(b * (h / b) + b == b * (h / b + 1));
        assert(b * (h / b + 1) <= b * m);
    }
    assert(h % b <= h) by (nonlinear_arith)
        requires
            b > 0,
            h >= 0,
    ;
    assert(block_start(host, prefix_len) == start);
    assert forall|j: int| 0 <= j < b implies (#[trigger] (start + j)) - (start + j) % b == start by {
        assert((start + j) - (start + j) % b == start) by (nonlinear_arith)
            requires
                b > 0,
                start == h - h % b,
                0 <= j < b,
        ;
    }
}

/// Every address that a scan probes lies in the block of the local address, and is neither
/// its network address nor its broadcast address.
pub proof fn law_scan_hosts_in_block(host: u32, prefix_len: u8, i: int)
    requires
        prefix_len <= 32,
        0 <= i < scan_hosts(host, prefix_len).len(),
    ensures
        ({
            let a = scan_hosts(host, prefix_len)[i] as int;
            let b = block_size(prefix_len) as int;
            &&& a - a % b == host as int - (host as int) % b
            &&& a != host as int - (host as int) % b
            &&& a != host as int - (host as int) % b + b - 1
        }),
{
    lemma_block_facts(host, prefix_len);
    let b = block_size(prefix_len) as int;
    let h = host as int;
    let start = h - h % b;
    assert(scan_hosts(host, prefix_len)[i] as int == start + (1 + i));
}

/// A scan probes no address for a /31 or a /32, and otherwise every address of the block but
/// two; the addresses strictly increase; and the local address is among them exactly when
/// it is neither the network address nor the broadcast address of its block.
pub proof fn law_scan_hosts_exact(host: u32, prefix_len: u8)
    requires
        prefix_len <= 32,
    ensures
        scan_hosts(host, prefix_len).len() == (if scan_prefix(prefix_len) >= 31 {
            0
        } else {
            (block_size(prefix_len) - 2) as nat
        }),
        forall|i: int, j: int|
            0 <= i < j < scan_hosts(host, prefix_len).len() ==> #[trigger] scan_hosts(
                host,
                prefix_len,
            )[i] < #[trigger] scan_hosts(host, prefix_len)[j],
        (exists|i: int|
            0 <= i < scan_hosts(host, prefix_len).len() && #[trigger] scan_hosts(host, prefix_len)[i]
                == host) <==> (host != block_start(host, prefix_len) && host != block_start(
            host,
            prefix_len,
        ) + block_size(prefix_len) - 1),
{
    lemma_block_facts(host, prefix_len);
    vstd::arithmetic::power2::lemma2_to64();
    let hs = scan_hosts(host, prefix_len);
    let b = block_size(prefix_len) as int;
    let start = block_start(host, prefix_len) as int;
    if scan_prefix(prefix_len) <= 30 {
        let e = (32 - scan_prefix(prefix_len)) as nat;
        vstd::arithmetic::power2::lemma_pow2_strictly_increases(1, e);
    }
    assert forall|i: int| 0 <= i < hs.len() implies #[trigger] hs[i] as int == start + 1 + i by {}
    assert forall|i: int, j: int| 0 <= i < j < hs.len() implies #[trigger] hs[i] < #[trigger] hs[j] by {
        assert(hs[i] as int == start + 1 + i);
        assert(hs[j] as int == start + 1 + j);
    }
    if host as int != start && host as int != start + b - 1 {
        let i = host as int - start - 1;
        assert(0 <= i < hs.len());
        assert(hs[i] as int == start + 1 + i);
    }
    if exists|i: int| 0 <= i < hs.len() && #[trigger] hs[i] == host {
        let i = choose|i: int| 0 <= i < hs.len() && #[trigger] hs[i] == host;
        assert(hs[i] as int == start + 1 + i);
    }
}

/// The mask of the scanned block: its top `scan_prefix` bits set.
pub open spec fn scan_mask(prefix_len: u8) -> u32 {
    !(((1u32 << ((32 - scan_prefix(prefix_len)) as u32)) - 1) as u32)
}

/// In terms of the mask: the block's network address is the local address with the host
/// bits cleared, its broadcast address has them set, and every probed address has the
/// network bits of the local address.
pub proof fn law_scan_mask_form(host: u32, prefix_len: u8)
    requires
        prefix_len <= 32,
    ensures
        block_start(host, prefix_len) == (host & scan_mask(prefix_len)) as nat,
        block_start(host, prefix_len) + block_size(prefix_len) - 1 == ((host & scan_mask(prefix_len))
            | !scan_mask(prefix_len)) as nat,
        forall|i: int|
            0 <= i < scan_hosts(host, prefix_len).len() ==> #[trigger] scan_hosts(host, prefix_len)[i]
                & scan_mask(prefix_len) == host & scan_mask(prefix_len),
{
    let k = (32 - scan_prefix(prefix_len)) as u32;
    lemma_block_bits(host, k);
    lemma_block_facts(host, prefix_len);
    assert forall|i: int| 0 <= i < scan_hosts(host, prefix_len).len() implies #[trigger] scan_hosts(
        host,
        prefix_len,
    )[i] & scan_mask(prefix_len) == host & scan_mask(prefix_len) by {
        let a = scan_hosts(host, prefix_len)[i];
        lemma_block_bits(a, k);
        law_scan_hosts_in_block(host, prefix_len, i);
    }
}

/// The documented ranges of `Ipv4Addr::is_private` (10/8, 172.16/12, 192.168/16),
/// `Ipv4Addr::is_loopback` (127/8) and `Ipv4Addr::is_link_local` (169.254/16).
pub open spec fn is_local_range(n: u32) -> bool {
    let a = octet(n, 0);
    let b = octet(n, 1);
    ||| a == 10
    ||| (a == 172 && 16 <= b <= 31)
    ||| (a == 192 && b == 168)
    ||| a == 127
    ||| (a == 169 && b == 254)
}

/// An address counts as local exactly when it lies in one of the blocks 10.0.0.0/8,
/// 172.16.0.0/12, 192.168.0.0/16 (private), 127.0.0.0/8 (loopback) or 169.254.0.0/16
/// (link-local), each given by its network address and mask.
pub proof fn law_local_range_blocks(n: u32)
    ensures
        is_local_range(n) <==> (n & 0xFF00_0000 == 0x0A00_0000 || n & 0xFFF0_0000 == 0xAC10_0000
            || n & 0xFFFF_0000 == 0xC0A8_0000 || n & 0xFF00_0000 == 0x7F00_0000 || n
            & 0xFFFF_0000 == 0xA9FE_0000),
{
    let a: u32 = n / 16777216;
    let b: u32 = n / 65536 % 256;
    assert(octet(n, 0) == a && octet(n, 1) == b);
    assert(((n & 0xFF00_0000 == 0x0A00_0000) <==> a == 10) && ((n & 0xFFF0_0000 == 0xAC10_0000)
        <==> (a == 172 && 16 <= b && b <= 31)) && ((n & 0xFFFF_0000 == 0xC0A8_0000) <==> (a
        == 192 && b == 168)) && ((n & 0xFF00_0000 == 0x7F00_0000) <==> a == 127) && ((n
        & 0xFFFF_0000 == 0xA9FE_0000) <==> (a == 169 && b == 254))) by (bit_vector)
        requires
            a == n / 16777216,
            b == n / 65536 % 256,
    ;
}

/// Whether `p` is an octet of dot-decimal notation, as `Ipv4Addr`'s reader takes it: one or
/// more decimal digits, with no leading zero (octal-looking groups are refused), of value at
/// most 255.
pub open spec fn is_strict_octet(p: Seq<char>) -> bool {
    &&& p.len() > 0
    &&& all_digits(p)
    &&& (p.len() > 1 ==> p[0] != '0')
    &&& digits_value(p) <= 255
}

/// The address that `s` names in dot-decimal notation (what `Ipv4Addr::from_str` reads):
/// exactly four such octets separated by dots, and nothing else.
pub open spec fn dotted_quad(s: Seq<char>) -> Option<u32> {
    let p = split(s, '.');
    if p.len() == 4 && is_strict_octet(p[0]) && is_strict_octet(p[1]) && is_strict_octet(p[2])
        && is_strict_octet(p[3]) {
        Some(
            (digits_value(p[0]) * 16777216 + digits_value(p[1]) * 65536 + digits_value(p[2]) * 256
                + digits_value(p[3])) as u32,
        )
    } else {
        None
    }
}

fn strict_octet(p: &Vec<char>) -> (r: Option<u64>)
    ensures
        match r {
            Some(v) => is_strict_octet(p@) && v as nat == digits_value(p@),
            None => !is_strict_octet(p@),
        },
{
    if p.len() == 0 || p[0] == '+' || (p.len() > 1 && p[0] == '0') {
        return None;
    }
    parse_number(p, 255)
}

/// Reads an IPv4 address in dot-decimal notation, as `Ipv4Addr::from_str` does.
pub fn parse_dotted_quad(s: &str) -> (r: Option<u32>)
    ensures
        r == dotted_quad(s@),
{
    let pieces = split_chars(&chars_of(s), '.');
    if pieces.len() != 4 {
        return None;
    }
    assert(pieces.deep_view()[0] =~= pieces[0]@);
    assert(pieces.deep_view()[1] =~= pieces[1]@);
    assert(pieces.deep_view()[2] =~= pieces[2]@);
    assert(pieces.deep_view()[3] =~= pieces[3]@);
    let a = match strict_octet(&pieces[0]) { Some(v) => v, None => return None };
    let b = match strict_octet(&pieces[1]) { Some(v) => v, None => return None };
    let c = match strict_octet(&pieces[2]) { Some(v) => v, None => return None };
    let d = match strict_octet(&pieces[3]) { Some(v) => v, None => return None };
    Some((a * 16777216 + b * 65536 + c * 256 + d) as u32)
}

/// Whether `n` is private, loopback or link-local.
pub fn in_local_range(n: u32) -> (r: bool)
    ensures
        r == is_local_range(n),
{
    let a = n / 16777216;
    let b = n / 65536 % 256;
    a == 10 || (a == 172 && 16 <= b && b <= 31) || (a == 192 && b == 168) || a == 127 || (a == 169
        && b == 254)
}

/// Whether `ip` is an IPv4 address that is private, loopback or link-local.
pub fn is_private_ip(ip: &str) -> (r: bool)
    ensures
        r == (match dotted_quad(ip@) {
            Some(n) => is_local_range(n),
            None => false,
        }),
{
    match parse_dotted_quad(ip) {
        Some(n) => in_local_range(n),
        None => false,
    }
}


/// Every text that `subnet_ips` gives reads back, with `ip_to_u32`, as the address that it
/// stands for.
pub proof fn law_subnet_ips_read_back(local_ip: Seq<char>, prefix_len: u8, i: int)
    requires
        0 <= i < spec_subnet_ips(local_ip, prefix_len).len(),
    ensures
        spec_ip_to_u32(local_ip) is Some,
        spec_ip_to_u32(spec_subnet_ips(local_ip, prefix_len)[i]) == Some(
            scan_hosts(spec_ip_to_u32(local_ip)->0, prefix_len)[i],
        ),
{
    let host = spec_ip_to_u32(local_ip)->0;
    law_ip_text_reads_back(scan_hosts(host, prefix_len)[i]);
}


/// A decimal writing with more than one digit does not start with `0`.
proof fn lemma_decimal_no_leading_zero(n: nat)
    ensures
        decimal(n).len() > 1 ==> decimal(n)[0] != '0',
    decreases n,
{
    if n >= 10 {
        lemma_decimal_no_leading_zero(n / 10);
        lemma_decimal_reads_back(n / 10);
        assert(decimal(n)[0] == decimal(n / 10)[0]);
        if n / 10 < 10 {
            lemma_digit_char(n / 10);
            assert(decimal(n / 10) == seq![digit_char(n / 10)]);
            assert(digit_value('0') == 0);
        } else {
            assert(decimal(n / 10).len() == decimal(n / 100).len() + 1);
            lemma_decimal_reads_back(n / 100);
        }
    } else {
        assert(decimal(n).len() == 1);
    }
}

proof fn lemma_strict_octet_text(v: nat)
    requires
        v <= 255,
    ensures
        is_strict_octet(decimal(v)),
        digits_value(decimal(v)) == v,
{
    lemma_decimal_reads_back(v);
    lemma_decimal_no_leading_zero(v);
}

/// The dot-decimal text of an address is read by `Ipv4Addr`'s rules as that address.
#[verifier::spinoff_prover]
#[verifier::rlimit(40)]
pub proof fn law_ip_text_is_dotted_quad(n: u32)
    ensures
        dotted_quad(ip_text(n)) == Some(n),
{
    let a = decimal(octet(n, 0));
    let b = decimal(octet(n, 1));
    let c = decimal(octet(n, 2));
    let d = decimal(octet(n, 3));
    lemma_octet_piece(octet(n, 0));
    lemma_octet_piece(octet(n, 1));
    lemma_octet_piece(octet(n, 2));
    lemma_octet_piece(octet(n, 3));
    lemma_strict_octet_text(octet(n, 0));
    lemma_strict_octet_text(octet(n, 1));
    lemma_strict_octet_text(octet(n, 2));
    lemma_strict_octet_text(octet(n, 3));
    lemma_split_join(a, b, '.');
    lemma_split_join(a + seq!['.'] + b, c, '.');
    lemma_split_join(a + seq!['.'] + b + seq!['.'] + c, d, '.');
    assert(split(ip_text(n), '.') =~= seq![a, b, c, d]);
}


proof fn lemma_octet_text_len(v: nat)
    requires
        v <= 255,
    ensures
        1 <= decimal(v).len() <= 3,
        count_char(decimal(v), '.') == 0,
{
    lemma_decimal_reads_back(v);
    lemma_count_char_none(decimal(v), '.');
    if v >= 10 {
        assert(decimal(v).len() == decimal(v / 10).len() + 1);
        if v / 10 >= 10 {
            assert(decimal(v / 10).len() == decimal(v / 100).len() + 1);
            assert(v / 100 < 10);
            assert(decimal(v / 100).len() == 1);
        } else {
            assert(decimal(v / 10).len() == 1);
        }
    } else {
        assert(decimal(v).len() == 1);
    }
}

/// The text of an address has exactly three dots and from 7 to 15 characters.
pub proof fn law_ip_text_shape(n: u32)
    ensures
        count_char(ip_text(n), '.') == 3,
        7 <= ip_text(n).len() <= 15,
{
    let a = decimal(octet(n, 0));
    let b = decimal(octet(n, 1));
    let c = decimal(octet(n, 2));
    let d = decimal(octet(n, 3));
    lemma_octet_text_len(octet(n, 0));
    lemma_octet_text_len(octet(n, 1));
    lemma_octet_text_len(octet(n, 2));
    lemma_octet_text_len(octet(n, 3));
    let dot = seq!['.'];
    assert(count_char(dot, '.') == 1) by {
        assert(dot.drop_last() =~= Seq::<char>::empty());
        assert(count_char(dot.drop_last(), '.') == 0);
        assert(dot.last() == '.');
    }
    lemma_count_char_add(a, dot, '.');
    lemma_count_char_add(a + dot, b, '.');
    lemma_count_char_add(a + dot + b, dot, '.');
    lemma_count_char_add(a + dot + b + dot, c, '.');
    lemma_count_char_add(a + dot + b + dot + c, dot, '.');
    lemma_count_char_add(a + dot + b + dot + c + dot, d, '.');
}

proof fn lemma_digit_round_trip(ch: char)
    requires
        is_digit(ch),
    ensures
        digit_char(digit_value(ch)) == ch,
        digit_value(ch) < 10,
{
}

proof fn lemma_leading_nonzero_value(p: Seq<char>)
    requires
        p.len() > 0,
        all_digits(p),
        p[0] != '0',
    ensures
        digits_value(p) >= 1,
    decreases p.len(),
{
    if p.len() > 1 {
        let d = p.drop_last();
        assert(d[0] == p[0]);
        assert(all_digits(d)) by {
            assert forall|i: int| 0 <= i < d.len() implies is_digit(#[trigger] d[i]) by {
                assert(d[i] == p[i]);
            }
        }
        lemma_leading_nonzero_value(d);
    } else {
        assert(p.drop_last() =~= Seq::<char>::empty());
        assert(is_digit(p[0]));
    }
}

/// A group of digits without a leading zero is the decimal writing of its value.
proof fn lemma_canonical_digits(p: Seq<char>)
    requires
        p.len() > 0,
        all_digits(p),
        p.len() > 1 ==> p[0] != '0',
    ensures
        decimal(digits_value(p)) == p,
    decreases p.len(),
{
    let c = p.last();
    assert(is_digit(p[p.len() - 1]));
    lemma_digit_round_trip(c);
    if p.len() == 1 {
        assert(p.drop_last() =~= Seq::<char>::empty());
        assert(digits_value(p.drop_last()) == 0);
        assert(digits_value(p) == digit_value(c));
        assert(decimal(digits_value(p)) =~= p);
    } else {
        let q = p.drop_last();
        assert(q[0] == p[0]);
        assert(all_digits(q)) by {
            assert forall|i: int| 0 <= i < q.len() implies is_digit(#[trigger] q[i]) by {
                assert(q[i] == p[i]);
            }
        }
        lemma_canonical_digits(q);
        lemma_leading_nonzero_value(q);
        let v = digits_value(p);
        assert(v == digits_value(q) * 10 + digit_value(c));
        assert(v >= 10);
        assert(v / 10 == digits_value(q));
        assert(v % 10 == digit_value(c));
        assert(decimal(v) == decimal(v / 10).push(digit_char(v % 10)));
        assert(decimal(v) =~= p);
    }
}

/// A dotted quad that `Ipv4Addr`'s rules accept is the text of the address it names, and
/// `ip_to_u32` reads it as that address too.
pub proof fn law_dotted_quad_round_trip(s: Seq<char>)
    requires
        dotted_quad(s) is Some,
    ensures
        ip_text(dotted_quad(s)->0) == s,
        spec_ip_to_u32(s) == dotted_quad(s),
{
    let p = split(s, '.');
    let v0 = digits_value(p[0]);
    let v1 = digits_value(p[1]);
    let v2 = digits_value(p[2]);
    let v3 = digits_value(p[3]);
    let n = dotted_quad(s)->0;
    assert(n as int == v0 * 16777216 + v1 * 65536 + v2 * 256 + v3);
    assert(octet(n, 0) == v0 && octet(n, 1) == v1 && octet(n, 2) == v2 && octet(n, 3) == v3)
        by (nonlinear_arith)
        requires
            n as int == v0 * 16777216 + v1 * 65536 + v2 * 256 + v3,
            v0 <= 255,
            v1 <= 255,
            v2 <= 255,
            v3 <= 255,
    ;
    lemma_canonical_digits(p[0]);
    lemma_canonical_digits(p[1]);
    lemma_canonical_digits(p[2]);
    lemma_canonical_digits(p[3]);
    lemma_join_split(s, '.');
    reveal_with_fuel(join, 5);
    assert(p.drop_last() =~= seq![p[0], p[1], p[2]]);
    assert(p.drop_last().drop_last() =~= seq![p[0], p[1]]);
    assert(p.drop_last().drop_last().drop_last() =~= seq![p[0]]);
    assert(join(p, '.') =~= ip_text(n));
    law_ip_text_reads_back(n);
}

} // verus!
