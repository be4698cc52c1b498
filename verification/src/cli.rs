//! The text that the command-line tool prints: coloured status marks, section headers and
//! the lines of each section.
use vstd::prelude::*;
use crate::ports::{opt_ports, PortResult};
use crate::text::{
    chars_eq_str, chars_of, decimal, opt_view, parse_bounded, parse_number, push_char, push_decimal,
    push_repeat, repeat, split, split_chars, split_once, split_once_char, str_trim_end_char,
    trim_end_matches,
};

verus! {

/// Green, for a passed check.
pub const GREEN: &'static str = "\x1b[38;2;63;185;80m";

/// Red, for a failed check.
pub const RED: &'static str = "\x1b[38;2;248;81;73m";

/// Yellow, for a warning.
pub const YELLOW: &'static str = "\x1b[38;2;210;153;34m";

/// Blue, for section headers.
pub const BLUE: &'static str = "\x1b[38;2;88;166;255m";

/// Dim text.
pub const DIM: &'static str = "\x1b[2m";

/// Bold text.
pub const BOLD: &'static str = "\x1b[1m";

/// Back to plain text.
pub const RESET: &'static str = "\x1b[0m";

/// A status line: a coloured mark, two spaces, then the text.
pub open spec fn marked(color: Seq<char>, mark: Seq<char>, s: Seq<char>) -> Seq<char> {
    color + mark + RESET@ + "  "@ + s
}

/// `s` marked as passed: a green check mark.
pub fn ok(s: &str) -> (r: String)
    ensures
        r@ == marked(GREEN@, "✔"@, s@),
{
    let mut r = GREEN.to_owned();
    r.append("✔");
    r.append(RESET);
    r.append("  ");
    r.append(s);
    r
}

/// `s` marked as failed: a red cross.
pub fn fail(s: &str) -> (r: String)
    ensures
        r@ == marked(RED@, "✘"@, s@),
{
    let mut r = RED.to_owned();
    r.append("✘");
    r.append(RESET);
    r.append("  ");
    r.append(s);
    r
}

/// `s` marked as a warning: a yellow exclamation mark.
pub fn warn(s: &str) -> (r: String)
    ensures
        r@ == marked(YELLOW@, "!"@, s@),
{
    let mut r = YELLOW.to_owned();
    r.append("!");
    r.append(RESET);
    r.append("  ");
    r.append(s);
    r
}


/// The width of the label column: each section starts with its title padded to this width,
/// and its further lines are indented by it.
pub open spec fn label_width() -> nat {
    10
}

/// `s` padded with spaces on the right to at least `w` characters (`{:<w}`).
pub open spec fn pad_right(s: Seq<char>, w: nat) -> Seq<char> {
    if s.len() < w {
        s + repeat(' ', (w - s.len()) as nat)
    } else {
        s
    }
}

/// Appends spaces to `s` until it has at least `w` characters.
fn pad_to(s: &mut String, w: usize)
    ensures
        final(s)@ == pad_right(old(s)@, w as nat),
{
    let n = s.as_str().unicode_len();
    if n < w {
        push_repeat(s, ' ', w - n);
    } else {
        assert(s@ =~= pad_right(s@, w as nat));
    }
}

/// The label column of a section: its title in bold blue, padded to the column's width.
pub open spec fn header_spec(s: &str) -> Seq<char> {
    BOLD@ + BLUE@ + pad_right(s@, label_width()) + RESET@
}

/// The label column of a section.
pub fn header_text(s: &str) -> (r: String)
    ensures
        r@ == header_spec(s),
{
    let mut label = s.to_owned();
    pad_to(&mut label, 10);
    let mut r = BOLD.to_owned();
    r.append(BLUE);
    r.append(label.as_str());
    r.append(RESET);
    r
}

/// A section as printed: its first line follows the label, and the others are indented by
/// the label column; a section with no lines is its label alone.
pub open spec fn section_spec(label: &str, lines: Seq<Seq<char>>) -> Seq<Seq<char>> {
    if lines.len() == 0 {
        seq![header_spec(label)]
    } else {
        Seq::new(
            lines.len(),
            |i: int|
                if i == 0 {
                    header_spec(label) + lines[0]
                } else {
                    repeat(' ', label_width()) + lines[i]
                },
        )
    }
}

/// The printed lines of the section `label` whose lines are `lines`.
pub fn section(label: &str, lines: Vec<String>) -> (r: Vec<String>)
    ensures
        r.deep_view() == section_spec(label, lines.deep_view()),
{
    let mut out: Vec<String> = Vec::new();
    if lines.len() == 0 {
        out.push(header_text(label));
        assert(out.deep_view() =~~= section_spec(label, lines.deep_view()));
        return out;
    }
    let mut i: usize = 0;
    while i < lines.len()
        invariant
            i <= lines.len(),
            lines.len() > 0,
            out.deep_view() == section_spec(label, lines.deep_view()).take(i as int),
        decreases lines.len() - i,
    {
        let mut l = if i == 0 {
            header_text(label)
        } else {
            let mut ind = String::new();
            push_repeat(&mut ind, ' ', 10);
            assert(ind@ =~= repeat(' ', label_width()));
            ind
        };
        l.append(lines[i].as_str());
        let ghost old_out = out.deep_view();
        out.push(l);
        assert(out.deep_view() =~~= old_out.push(l@));
        assert(section_spec(label, lines.deep_view()).take(i + 1) =~= section_spec(
            label,
            lines.deep_view(),
        ).take(i as int).push(l@));
        i += 1;
    }
    assert(section_spec(label, lines.deep_view()).take(i as int) =~= section_spec(
        label,
        lines.deep_view(),
    ));
    out
}

/// A dimmed line of detail under a status line, aligned with the status text.
pub open spec fn detail_line(s: Seq<char>) -> Seq<char> {
    "   "@ + DIM@ + s + RESET@
}

fn detail(s: &str) -> (r: String)
    ensures
        r@ == detail_line(s@),
{
    let mut l = "   ".to_owned();
    l.append(DIM);
    l.append(s);
    l.append(RESET);
    l
}

/// The lines of the DNS section: the first address marked as found, the others dimmed
/// under it, or a failure when there is none.
pub open spec fn dns_lines_spec(addrs: Seq<Seq<char>>) -> Seq<Seq<char>> {
    if addrs.len() == 0 {
        seq![marked(RED@, "✘"@, "no addresses found"@)]
    } else {
        Seq::new(
            addrs.len(),
            |i: int|
                if i == 0 {
                    marked(GREEN@, "✔"@, addrs[0])
                } else {
                    detail_line(addrs[i])
                },
        )
    }
}

/// The lines of the DNS section for the addresses found.
pub fn dns_lines(addrs: &Vec<String>) -> (r: Vec<String>)
    ensures
        r.deep_view() == dns_lines_spec(addrs.deep_view()),
{
    let mut out: Vec<String> = Vec::new();
    if addrs.len() == 0 {
        out.push(fail("no addresses found"));
        assert(out.deep_view() =~~= dns_lines_spec(addrs.deep_view()));
        return out;
    }
    let mut i: usize = 0;
    while i < addrs.len()
        invariant
            i <= addrs.len(),
            addrs.len() > 0,
            out.deep_view() == dns_lines_spec(addrs.deep_view()).take(i as int),
        decreases addrs.len() - i,
    {
        let line = if i == 0 {
            ok(addrs[0].as_str())
        } else {
            detail(addrs[i].as_str())
        };
        let ghost old_out = out.deep_view();
        out.push(line);
        assert(out.deep_view() =~~= old_out.push(line@));
        assert(dns_lines_spec(addrs.deep_view()).take(i + 1) =~= dns_lines_spec(
            addrs.deep_view(),
        ).take(i as int).push(line@));
        i += 1;
    }
    assert(dns_lines_spec(addrs.deep_view()).take(i as int) =~= dns_lines_spec(addrs.deep_view()));
    out
}

/// The text of a port's line: the port padded to five places, then its service.
pub open spec fn port_label(p: PortResult) -> Seq<char> {
    pad_right(decimal(p.port as nat), 5) + " "@ + p.service@
}

/// The lines of the ports in `ports`, in order: each open port marked as passed, and, when
/// all are shown, each closed port marked as failed.
pub open spec fn port_result_lines(ports: Seq<PortResult>, show_all: bool) -> Seq<Seq<char>>
    decreases ports.len(),
{
    if ports.len() == 0 {
        Seq::<Seq<char>>::empty()
    } else {
        let prev = port_result_lines(ports.drop_last(), show_all);
        if ports.last().open {
            prev.push(marked(GREEN@, "✔"@, port_label(ports.last())))
        } else if show_all {
            prev.push(marked(RED@, "✘"@, port_label(ports.last())))
        } else {
            prev
        }
    }
}

/// The number of open ports among `ports`.
pub open spec fn open_count(ports: Seq<PortResult>) -> nat
    decreases ports.len(),
{
    if ports.len() == 0 {
        0
    } else {
        open_count(ports.drop_last()) + if ports.last().open { 1nat } else { 0nat }
    }
}

/// The lines of the ports section: a line for each port shown, a warning when none is
/// open, and the count of the others, with a hint to `-a` when they are not shown.
pub open spec fn port_lines_spec(ports: Seq<PortResult>, show_all: bool) -> Seq<Seq<char>> {
    port_result_lines(ports, show_all) + (if open_count(ports) == 0 {
        seq![marked(YELLOW@, "!"@, "no open ports found"@)]
    } else {
        Seq::<Seq<char>>::empty()
    }) + seq![
        detail_line(
            decimal((ports.len() - open_count(ports)) as nat) + " ports closed / filtered"@ + (
            if show_all {
                ""@
            } else {
                " (use -a to show all)"@
            }),
        ),
    ]
}

/// The lines of the ports section for the results of a scan; `show_all` shows the closed
/// ports too.
pub fn port_lines(ports: &Vec<PortResult>, show_all: bool) -> (r: Vec<String>)
    ensures
        r.deep_view() == port_lines_spec(ports@, show_all),
{
    let mut out: Vec<String> = Vec::new();
    let mut open: usize = 0;
    let mut i: usize = 0;
    assert(ports@.take(0) =~= Seq::<PortResult>::empty());
    while i < ports.len()
        invariant
            i <= ports.len(),
            open as nat == open_count(ports@.take(i as int)),
            open <= i,
            out.deep_view() == port_result_lines(ports@.take(i as int), show_all),
        decreases ports.len() - i,
    {
        let ghost t = ports@.take(i + 1);
        assert(t.drop_last() =~= ports@.take(i as int));
        assert(t.last() == ports@[i as int]);
        if ports[i].open || show_all {
            let mut label = String::new();
            push_decimal(&mut label, ports[i].port as u64);
            pad_to(&mut label, 5);
            label.append(" ");
            label.append(ports[i].service.as_str());
            let line = if ports[i].open {
                ok(label.as_str())
            } else {
                fail(label.as_str())
            };
            let ghost old_out = out.deep_view();
            out.push(line);
            assert(out.deep_view() =~~= old_out.push(line@));
        }
        if ports[i].open {
            open += 1;
        }
        i += 1;
    }
    assert(ports@.take(ports.len() as int) =~= ports@);
    if open == 0 {
        let ghost old_out = out.deep_view();
        let w = warn("no open ports found");
        out.push(w);
        assert(out.deep_view() =~~= old_out.push(w@));
    }
    let closed = ports.len() - open;
    let mut count = String::new();
    push_decimal(&mut count, closed as u64);
    count.append(" ports closed / filtered");
    if !show_all {
        count.append(" (use -a to show all)");
    } else {
        proof {
            reveal_strlit("");
        }
        assert(count@ + ""@ =~= count@);
    }
    let last = detail(count.as_str());
    let ghost old_out = out.deep_view();
    out.push(last);
    assert(out.deep_view() =~~= old_out.push(last@));
    assert(out.deep_view() =~~= port_lines_spec(ports@, show_all));
    out
}

/// What the command-line TLS check found.
pub struct SslInfo {
    pub valid: bool,
    pub days: Option<i64>,
    pub subject: String,
    pub issuer: String,
    pub error: Option<String>,
}

/// The status line of a certificate that has `days` days left: valid after more than 30,
/// expiring after 1 to 30, and expired otherwise.
pub open spec fn ssl_status_line(days: i64) -> Seq<char> {
    if days > 30 {
        marked(GREEN@, "✔"@, "valid  "@ + decimal(days as nat) + " days remaining"@)
    } else if days > 0 {
        marked(YELLOW@, "!"@, "expiring in "@ + decimal(days as nat) + " days"@)
    } else {
        marked(RED@, "✘"@, "expired"@)
    }
}

/// The names line of a certificate: `CN  subject` and `CA  issuer`, those that are known,
/// joined by `  ·  `.
pub open spec fn names_text(subject: Seq<char>, issuer: Seq<char>) -> Seq<char> {
    if subject.len() > 0 && issuer.len() > 0 {
        "CN  "@ + subject + "  ·  "@ + "CA  "@ + issuer
    } else if subject.len() > 0 {
        "CN  "@ + subject
    } else {
        "CA  "@ + issuer
    }
}

/// The lines of the TLS section: the error when there is one; otherwise, for a valid
/// certificate, its status (no figure counts as 0 days) and, when its subject or issuer is
/// known, a dimmed line of both.
pub open spec fn ssl_lines_spec(info: SslInfo) -> Seq<Seq<char>> {
    match info.error {
        Some(e) => seq![marked(RED@, "✘"@, e@)],
        None => if info.valid {
            let days = match info.days {
                Some(d) => d,
                None => 0,
            };
            seq![ssl_status_line(days)] + (if info.subject@.len() > 0 || info.issuer@.len() > 0 {
                seq![detail_line(names_text(info.subject@, info.issuer@))]
            } else {
                Seq::<Seq<char>>::empty()
            })
        } else {
            Seq::<Seq<char>>::empty()
        },
    }
}

/// The lines of the TLS section for what the check found.
pub fn ssl_lines(info: &SslInfo) -> (r: Vec<String>)
    ensures
        r.deep_view() == ssl_lines_spec(*info),
{
    let mut out: Vec<String> = Vec::new();
    match &info.error {
        Some(e) => {
            out.push(fail(e.as_str()));
        },
        None => {
            if info.valid {
                let days: i64 = match info.days {
                    Some(d) => d,
                    None => 0,
                };
                let status = if days > 30 {
                    let mut t = "valid  ".to_owned();
                    push_decimal(&mut t, days as u64);
                    t.append(" days remaining");
                    ok(t.as_str())
                } else if days > 0 {
                    let mut t = "expiring in ".to_owned();
                    push_decimal(&mut t, days as u64);
                    t.append(" days");
                    warn(t.as_str())
                } else {
                    fail("expired")
                };
                out.push(status);
                let has_subject = info.subject.as_str().unicode_len() > 0;
                let has_issuer = info.issuer.as_str().unicode_len() > 0;
                if has_subject || has_issuer {
                    let mut names = String::new();
                    if has_subject {
                        names.append("CN  ");
                        names.append(info.subject.as_str());
                        if has_issuer {
                            names.append("  ·  ");
                        }
                    }
                    if has_issuer {
                        names.append("CA  ");
                        names.append(info.issuer.as_str());
                    }
                    assert(names@ =~= names_text(info.subject@, info.issuer@));
                    out.push(detail(names.as_str()));
                }
            }
        },
    }
    assert(out.deep_view() =~~= ssl_lines_spec(*info));
    out
}


// ───────────────────────────── arguments ─────────────────────────────

/// The ports that one item of a port list names: a port, or `A-B` for the ports from `A`
/// to `B`, both included.
pub open spec fn port_item(s: Seq<char>) -> Option<Seq<u16>> {
    match split_once(s, '-') {
        Some((a, b)) => match (parse_bounded(a, 65535), parse_bounded(b, 65535)) {
            (Some(x), Some(y)) => if x <= y {
                Some(Seq::new((y - x + 1) as nat, |i: int| (x + i) as u16))
            } else {
                None
            },
            _ => None,
        },
        None => match parse_bounded(s, 65535) {
            Some(x) => Some(seq![x as u16]),
            None => None,
        },
    }
}

/// The ports that the items of a port list name, in order; none if one of them is not a
/// port or a range.
pub open spec fn port_items(items: Seq<Seq<char>>) -> Option<Seq<u16>>
    decreases items.len(),
{
    if items.len() == 0 {
        Some(Seq::<u16>::empty())
    } else {
        match (port_items(items.drop_last()), port_item(items.last())) {
            (Some(p), Some(q)) => Some(p + q),
            _ => None,
        }
    }
}

/// The ports that a port list given with `-p` names: items separated by commas, such as
/// `22,80,443` or `8000-8010`.
pub open spec fn port_list(s: Seq<char>) -> Option<Seq<u16>> {
    port_items(split(s, ','))
}

fn port_item_exec(s: &Vec<char>) -> (r: Option<Vec<u16>>)
    ensures
        opt_ports(r) == port_item(s@),
{
    match split_once_char(s, '-') {
        Some((a, b)) => {
            let x = parse_number(&a, 65535);
            let y = parse_number(&b, 65535);
            match (x, y) {
                (Some(x), Some(y)) => {
                    if x > y {
                        return None;
                    }
                    let mut out: Vec<u16> = Vec::new();
                    let mut k: u64 = x;
                    while k <= y
                        invariant
                            x <= k <= y + 1,
                            y <= 65535,
                            out@ == Seq::new((k - x) as nat, |i: int| (x + i) as u16),
                        decreases y + 1 - k,
                    {
                        out.push(k as u16);
                        assert(out@ =~= Seq::new((k + 1 - x) as nat, |i: int| (x + i) as u16));
                        k += 1;
                    }
                    Some(out)
                },
                _ => None,
            }
        },
        None => match parse_number(s, 65535) {
            Some(x) => {
                let v = vec![x as u16];
                assert(v@ =~= seq![x as u16]);
                Some(v)
            },
            None => None,
        },
    }
}

/// The ports that the port list `s` names.
pub fn parse_port_list(s: &str) -> (r: Option<Vec<u16>>)
    ensures
        opt_ports(r) == port_list(s@),
{
    let cs = chars_of(s);
    let items = split_chars(&cs, ',');
    assert(port_list(s@) == port_items(items.deep_view()));
    let mut out: Vec<u16> = Vec::new();
    let mut i: usize = 0;
    assert(items.deep_view().take(0) =~= Seq::<Seq<char>>::empty());
    while i < items.len()
        invariant
            i <= items.len(),
            port_list(s@) == port_items(items.deep_view()),
            port_items(items.deep_view().take(i as int)) == Some(out@),
        decreases items.len() - i,
    {
        let ghost t = items.deep_view().take(i + 1);
        assert(t.drop_last() =~= items.deep_view().take(i as int));
        assert(t.last() =~= items[i as int]@);
        match port_item_exec(&items[i]) {
            Some(q) => {
                let ghost old = out@;
                let mut j: usize = 0;
                while j < q.len()
                    invariant
                        j <= q.len(),
                        out@ == old + q@.take(j as int),
                    decreases q.len() - j,
                {
                    out.push(q[j]);
                    assert(old + q@.take(j + 1) =~= (old + q@.take(j as int)).push(q@[j as int]));
                    j += 1;
                }
                assert(q@.take(q.len() as int) =~= q@);
            },
            None => {
                proof {
                    assert(items.deep_view()[i as int] =~= items[i as int]@);
                    lemma_port_items_none(items.deep_view(), i as int);
                }
                return None;
            },
        }
        i += 1;
    }
    assert(items.deep_view().take(items.len() as int) =~= items.deep_view());
    Some(out)
}

proof fn lemma_port_items_none(items: Seq<Seq<char>>, i: int)
    requires
        0 <= i < items.len(),
        port_item(items[i]) is None,
    ensures
        port_items(items) is None,
    decreases items.len(),
{
    if i < items.len() - 1 {
        lemma_port_items_none(items.drop_last(), i);
    }
}

/// What the command-line tool is asked to do: the host (without trailing dots), the ports
/// chosen with `-p` if any, and whether `-a` asks for every port to be shown.
pub struct CliOptions {
    pub host: String,
    pub ports: Option<Vec<u16>>,
    pub show_all: bool,
}

/// How the command-line tool is used.
pub open spec fn usage_text() -> Seq<char> {
    "Usage: netblame-cli [-a] [-p PORTS] <host>"@
}

/// What the arguments `rest` ask for, after a host, ports and `-a` have been seen: `-a`
/// shows every port, `-p LIST` chooses the ports (a later `-p` wins), and the first other
/// argument is the host; without a host the usage is the error.
pub open spec fn scan_args(
    rest: Seq<Seq<char>>,
    host: Option<Seq<char>>,
    ports: Option<Seq<u16>>,
    all: bool,
) -> Result<(Seq<char>, Option<Seq<u16>>, bool), Seq<char>>
    decreases rest.len(),
{
    if rest.len() == 0 {
        match host {
            Some(h) => Ok((trim_end_matches(h, '.'), ports, all)),
            None => Err(usage_text()),
        }
    } else if rest[0] == "-a"@ {
        scan_args(rest.drop_first(), host, ports, true)
    } else if rest[0] == "-p"@ {
        if rest.len() < 2 {
            Err("missing port list after -p"@)
        } else {
            match port_list(rest[1]) {
                Some(p) => scan_args(rest.skip(2), host, Some(p), all),
                None => Err("invalid port list: "@ + rest[1]),
            }
        }
    } else {
        scan_args(
            rest.drop_first(),
            if host is Some {
                host
            } else {
                Some(rest[0])
            },
            ports,
            all,
        )
    }
}

/// What the command line `args` (the program's name first) asks for.
pub open spec fn cli_args_spec(args: Seq<Seq<char>>) -> Result<
    (Seq<char>, Option<Seq<u16>>, bool),
    Seq<char>,
> {
    scan_args(if args.len() > 0 { args.drop_first() } else { args }, None, None, false)
}

/// Reads the command line of the command-line tool (the program's name first).
pub fn parse_cli_args(args: &Vec<String>) -> (r: Result<CliOptions, String>)
    ensures
        match r {
            Ok(o) => cli_args_spec(args.deep_view()) == Ok::<_, Seq<char>>(
                (o.host@, opt_ports(o.ports), o.show_all),
            ),
            Err(e) => cli_args_spec(args.deep_view()) == Err::<
                (Seq<char>, Option<Seq<u16>>, bool),
                _,
            >(e@),
        },
{
    let ghost d = args.deep_view();
    let mut i: usize = if args.len() > 0 { 1 } else { 0 };
    let mut host: Option<String> = None;
    let mut ports: Option<Vec<u16>> = None;
    let mut all = false;
    assert(d.skip(i as int) =~= (if d.len() > 0 { d.drop_first() } else { d }));
    while i < args.len()
        invariant
            i <= args.len(),
            d == args.deep_view(),
            cli_args_spec(d) == scan_args(d.skip(i as int), opt_view(host), opt_ports(ports), all),
        decreases args.len() - i,
    {
        let a = chars_of(args[i].as_str());
        assert(d.skip(i as int)[0] =~= args[i as int]@);
        assert(d.skip(i as int).drop_first() =~= d.skip(i + 1));
        if chars_eq_str(&a, "-a") {
            all = true;
            i += 1;
        } else if chars_eq_str(&a, "-p") {
            if i + 1 >= args.len() {
                return Err("missing port list after -p".to_owned());
            }
            assert(d.skip(i as int)[1] =~= args[i + 1]@);
            assert(d.skip(i as int).skip(2) =~= d.skip(i + 2));
            match parse_port_list(args[i + 1].as_str()) {
                Some(p) => {
                    ports = Some(p);
                    i += 2;
                },
                None => {
                    let mut e = "invalid port list: ".to_owned();
                    e.append(args[i + 1].as_str());
                    return Err(e);
                },
            }
        } else {
            if host.is_none() {
                host = Some(args[i].clone());
            }
            i += 1;
        }
    }
    assert(d.skip(i as int) =~= Seq::<Seq<char>>::empty());
    match host {
        Some(h) => Ok(
            CliOptions { host: str_trim_end_char(h.as_str(), '.'), ports, show_all: all },
        ),
        None => Err("Usage: netblame-cli [-a] [-p PORTS] <host>".to_owned()),
    }
}

} // verus!
