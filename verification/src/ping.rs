//! Reading the output of `ping`: the summary figures, the kind of each streamed line, the
//! privilege errors, and the arguments that a run is started with.
use vstd::prelude::*;
use crate::text::{
    chars_of, contains, contains_str, decimal, decode_lossy, lines, lines_of, lowercase, opt_chars,
    opt_string, opt_view, parse_bounded, parse_number, push_decimal, split, split_chars,
    starts_with, starts_with_str, string_from, to_lowercase, tokens, tokens_of, trim, trim_exec,
    utf8_lossy,
};

verus! {

/// The first of `ls` that contains `a` or `b`.
pub open spec fn first_containing(ls: Seq<Seq<char>>, a: Seq<char>, b: Seq<char>) -> Option<
    Seq<char>,
>
    decreases ls.len(),
{
    if ls.len() == 0 {
        None
    } else if contains(ls[0], a) || contains(ls[0], b) {
        Some(ls[0])
    } else {
        first_containing(ls.drop_first(), a, b)
    }
}

/// The first of `ls` that starts with `a` or `b`.
pub open spec fn first_starting(ls: Seq<Seq<char>>, a: Seq<char>, b: Seq<char>) -> Option<
    Seq<char>,
>
    decreases ls.len(),
{
    if ls.len() == 0 {
        None
    } else if starts_with(ls[0], a) || starts_with(ls[0], b) {
        Some(ls[0])
    } else {
        first_starting(ls.drop_first(), a, b)
    }
}

/// Piece `n` (from 0) of `s` cut at `sep` (`str::split(sep).nth(n)`).
pub open spec fn piece(s: Seq<char>, sep: char, n: int) -> Option<Seq<char>> {
    if 0 <= n < split(s, sep).len() {
        Some(split(s, sep)[n])
    } else {
        None
    }
}

/// The last token of `s` (`str::split_whitespace().last()`).
pub open spec fn last_token(s: Seq<char>) -> Option<Seq<char>> {
    if tokens(s).len() > 0 {
        Some(tokens(s).last())
    } else {
        None
    }
}

/// The packet-loss figure in ping's summary: in the first line that mentions
/// "packet loss", the last word before the first `%`.
pub open spec fn loss_text(out: Seq<char>) -> Option<Seq<char>> {
    match first_containing(lines(out), "packet loss"@, "packet loss"@) {
        Some(l) => last_token(split(l, '%')[0]),
        None => None,
    }
}

/// The average round-trip figure in ping's summary: in the first line that starts with
/// "rtt" or "round-trip", the second `/`-piece of the trimmed text after the first `=`.
pub open spec fn avg_text(out: Seq<char>) -> Option<Seq<char>> {
    match first_starting(lines(out), "rtt"@, "round-trip"@) {
        Some(l) => match piece(l, '=', 1) {
            Some(stats) => piece(trim(stats), '/', 1),
            None => None,
        },
        None => None,
    }
}

/// The average round-trip figure as the command-line tool reads it: in the first line that
/// mentions "rtt" or "round-trip", the fifth `/`-piece, trimmed.
pub open spec fn cli_avg_text(out: Seq<char>) -> Option<Seq<char>> {
    match first_containing(lines(out), "rtt"@, "round-trip"@) {
        Some(l) => match piece(l, '/', 4) {
            Some(p) => Some(trim(p)),
            None => None,
        },
        None => None,
    }
}

/// The index of the first of `ls` that contains `a` or `b`.
fn find_containing(ls: &Vec<Vec<char>>, a: &str, b: &str) -> (r: Option<usize>)
    ensures
        match r {
            Some(i) => i < ls.len() && first_containing(ls.deep_view(), a@, b@) == Some(
                ls.deep_view()[i as int],
            ),
            None => first_containing(ls.deep_view(), a@, b@) is None,
        },
{
    let ghost d = ls.deep_view();
    let mut i: usize = 0;
    assert(d.skip(0) =~= d);
    while i < ls.len()
        invariant
            i <= ls.len(),
            d == ls.deep_view(),
            first_containing(d, a@, b@) == first_containing(d.skip(i as int), a@, b@),
        decreases ls.len() - i,
    {
        assert(d.skip(i as int)[0] == ls[i as int]@);
        if contains_str(&ls[i], a) || contains_str(&ls[i], b) {
            return Some(i);
        }
        assert(d.skip(i as int).drop_first() =~= d.skip(i + 1));
        i += 1;
    }
    None
}

/// The index of the first of `ls` that starts with `a` or `b`.
fn find_starting(ls: &Vec<Vec<char>>, a: &str, b: &str) -> (r: Option<usize>)
    ensures
        match r {
            Some(i) => i < ls.len() && first_starting(ls.deep_view(), a@, b@) == Some(
                ls.deep_view()[i as int],
            ),
            None => first_starting(ls.deep_view(), a@, b@) is None,
        },
{
    let ghost d = ls.deep_view();
    let mut i: usize = 0;
    assert(d.skip(0) =~= d);
    while i < ls.len()
        invariant
            i <= ls.len(),
            d == ls.deep_view(),
            first_starting(d, a@, b@) == first_starting(d.skip(i as int), a@, b@),
        decreases ls.len() - i,
    {
        assert(d.skip(i as int)[0] == ls[i as int]@);
        if starts_with_str(&ls[i], a) || starts_with_str(&ls[i], b) {
            return Some(i);
        }
        assert(d.skip(i as int).drop_first() =~= d.skip(i + 1));
        i += 1;
    }
    None
}

/// Piece `n` of `v@` cut at `sep`.
fn piece_exec(v: &Vec<char>, sep: char, n: usize) -> (r: Option<Vec<char>>)
    ensures
        match r {
            Some(p) => piece(v@, sep, n as int) == Some(p@),
            None => piece(v@, sep, n as int) is None,
        },
{
    let mut parts = split_chars(v, sep);
    if n < parts.len() {
        assert(parts.deep_view()[n as int] == parts[n as int]@);
        Some(parts.swap_remove(n))
    } else {
        None
    }
}

/// The last token of `v@`.
fn last_token_exec(v: &Vec<char>) -> (r: Option<Vec<char>>)
    ensures
        match r {
            Some(t) => last_token(v@) == Some(t@),
            None => last_token(v@) is None,
        },
{
    let mut ts = tokens_of(v);
    if ts.len() > 0 {
        assert(ts.deep_view().last() == ts[ts.len() - 1]@);
        ts.pop()
    } else {
        None
    }
}

/// The packet-loss word of a ping summary.
fn loss_text_exec(out: &Vec<char>) -> (r: Option<Vec<char>>)
    ensures
        match r {
            Some(t) => loss_text(out@) == Some(t@),
            None => loss_text(out@) is None,
        },
{
    let ls = lines_of(out);
    match find_containing(&ls, "packet loss", "packet loss") {
        Some(i) => {
            assert(ls.deep_view()[i as int] =~= ls[i as int]@);
            let parts = split_chars(&ls[i], '%');
            proof {
                crate::text::lemma_split_nonempty(ls[i as int]@, '%');
            }
            assert(parts.deep_view()[0] == parts[0]@);
            last_token_exec(&parts[0])
        },
        None => None,
    }
}

/// The average round-trip word of a ping summary.
fn avg_text_exec(out: &Vec<char>) -> (r: Option<Vec<char>>)
    ensures
        match r {
            Some(t) => avg_text(out@) == Some(t@),
            None => avg_text(out@) is None,
        },
{
    let ls = lines_of(out);
    match find_starting(&ls, "rtt", "round-trip") {
        Some(i) => match {
            assert(ls.deep_view()[i as int] =~= ls[i as int]@);
            piece_exec(&ls[i], '=', 1)
        } {
            Some(stats) => {
                let t = trim_exec(&stats);
                piece_exec(&t, '/', 1)
            },
            None => None,
        },
        None => None,
    }
}

/// The average round-trip word as the command-line tool reads it.
fn cli_avg_text_exec(out: &Vec<char>) -> (r: Option<Vec<char>>)
    ensures
        match r {
            Some(t) => cli_avg_text(out@) == Some(t@),
            None => cli_avg_text(out@) is None,
        },
{
    let ls = lines_of(out);
    match find_containing(&ls, "rtt", "round-trip") {
        Some(i) => match {
            assert(ls.deep_view()[i as int] =~= ls[i as int]@);
            piece_exec(&ls[i], '/', 4)
        } {
            Some(p) => Some(trim_exec(&p)),
            None => None,
        },
        None => None,
    }
}


/// How a run of `ping` ended: it could not be started, or it finished with this output.
pub enum PingRun {
    SpawnFailed(String),
    Finished { stdout: Vec<u8>, stderr: Vec<u8>, exit_ok: bool },
}

/// The summary of a ping check. The average round-trip time is given as the text that
/// ping printed.
pub struct PingSummary {
    pub success: bool,
    pub avg_ms_text: Option<String>,
    pub packet_loss: Option<u8>,
    pub requires_root: bool,
    pub error: Option<String>,
}

/// Whether ping's lower-cased error output tells of missing privileges.
pub open spec fn denied_text(err: Seq<char>) -> bool {
    contains(err, "operation not permitted"@) || contains(err, "permission denied"@)
}

/// Whether lower-cased error text of ping tells of missing privileges.
pub fn is_denied_text(lower: &str) -> (r: bool)
    ensures
        r == denied_text(lower@),
{
    let v = chars_of(lower);
    contains_str(&v, "operation not permitted") || contains_str(&v, "permission denied")
}

/// The packet loss, in percent, that ping's output gives.
pub open spec fn spec_packet_loss(out: Seq<char>) -> Option<u8> {
    match loss_text(out) {
        Some(t) => match parse_bounded(t, 255) {
            Some(v) => Some(v as u8),
            None => None,
        },
        None => None,
    }
}

/// What a ping check reports for a run.
pub open spec fn ping_summary_holds(run: PingRun, r: PingSummary) -> bool {
    match run {
        PingRun::SpawnFailed(e) => {
            &&& !r.success
            &&& r.avg_ms_text is None
            &&& r.packet_loss is None
            &&& !r.requires_root
            &&& opt_view(r.error) == Some("ping not found: "@ + e@)
        },
        PingRun::Finished { stdout, stderr, exit_ok } => {
            let out = utf8_lossy(stdout@);
            if denied_text(lowercase(utf8_lossy(stderr@))) {
                &&& !r.success
                &&& r.avg_ms_text is None
                &&& r.packet_loss is None
                &&& r.requires_root
                &&& opt_view(r.error) == Some("ICMP requires elevated privileges on this system"@)
            } else {
                &&& r.packet_loss == spec_packet_loss(out)
                &&& opt_view(r.avg_ms_text) == avg_text(out)
                &&& r.success == (exit_ok && r.packet_loss is Some && r.packet_loss->0 < 100)
                &&& !r.requires_root
                &&& opt_view(r.error) == (if exit_ok {
                    None
                } else {
                    Some(trim(utf8_lossy(stderr@)))
                })
            }
        },
    }
}

/// Reads the outcome of a ping check from a run of `ping`.
pub fn ping_summary(run: PingRun) -> (r: PingSummary)
    ensures
        ping_summary_holds(run, r),
{
    match run {
        PingRun::SpawnFailed(e) => {
            let mut msg = "ping not found: ".to_owned();
            msg.append(e.as_str());
            PingSummary {
                success: false,
                avg_ms_text: None,
                packet_loss: None,
                requires_root: false,
                error: Some(msg),
            }
        },
        PingRun::Finished { stdout, stderr, exit_ok } => {
            let err_text = decode_lossy(stderr.as_slice());
            let lower = to_lowercase(err_text.as_str());
            if is_denied_text(lower.as_str()) {
                return PingSummary {
                    success: false,
                    avg_ms_text: None,
                    packet_loss: None,
                    requires_root: true,
                    error: Some("ICMP requires elevated privileges on this system".to_owned()),
                };
            }
            let out = decode_lossy(stdout.as_slice());
            let out_chars = chars_of(out.as_str());
            let loss: Option<u8> = match loss_text_exec(&out_chars) {
                Some(t) => match parse_number(&t, 255) {
                    Some(v) => Some(v as u8),
                    None => None,
                },
                None => None,
            };
            let avg = opt_string(avg_text_exec(&out_chars));
            let success = exit_ok && match loss {
                Some(l) => l < 100,
                None => false,
            };
            let error = if exit_ok {
                None
            } else {
                let err_chars = chars_of(err_text.as_str());
                Some(string_from(&trim_exec(&err_chars)))
            };
            PingSummary { success, avg_ms_text: avg, packet_loss: loss, requires_root: false, error }
        },
    }
}

/// A ping check succeeds exactly when ping ran, exited successfully and reported a packet
/// loss below 100 percent (no loss at all included).
pub proof fn law_ping_success(run: PingRun, r: PingSummary)
    requires
        ping_summary_holds(run, r),
    ensures
        r.success <==> (run is Finished && run->exit_ok && r.packet_loss is Some
            && r.packet_loss->0 < 100),
{
}

/// The summary of a ping check whose task could not be run.
pub fn ping_task_failed(e: &str) -> (r: PingSummary)
    ensures
        !r.success,
        r.avg_ms_text is None,
        r.packet_loss is None,
        !r.requires_root,
        opt_view(r.error) == Some("Task error: "@ + e@),
{
    let mut msg = "Task error: ".to_owned();
    msg.append(e);
    PingSummary {
        success: false,
        avg_ms_text: None,
        packet_loss: None,
        requires_root: false,
        error: Some(msg),
    }
}

/// What the command-line tool reads from a run of `ping`: the average round-trip and
/// packet-loss words as ping printed them, or an error.
pub struct CliPingText {
    pub avg_text: Option<String>,
    pub loss_text: Option<String>,
    pub error: Option<String>,
}

/// Reads the command-line tool's ping line from a run of `ping`.
pub fn cli_ping_text(run: PingRun) -> (r: CliPingText)
    ensures
        match run {
            PingRun::SpawnFailed(e) => r.avg_text is None && r.loss_text is None && opt_view(
                r.error,
            ) == Some(e@),
            PingRun::Finished { stdout, stderr, exit_ok } => if contains(
                utf8_lossy(stderr@),
                "not permitted"@,
            ) {
                r.avg_text is None && r.loss_text is None && opt_view(r.error) == Some(
                    "requires root or cap_net_raw"@,
                )
            } else {
                &&& opt_view(r.avg_text) == cli_avg_text(utf8_lossy(stdout@))
                &&& opt_view(r.loss_text) == loss_text(utf8_lossy(stdout@))
                &&& r.error is None
            },
        },
{
    match run {
        PingRun::SpawnFailed(e) => CliPingText { avg_text: None, loss_text: None, error: Some(e) },
        PingRun::Finished { stdout, stderr, exit_ok } => {
            let err_text = decode_lossy(stderr.as_slice());
            let err_chars = chars_of(err_text.as_str());
            if contains_str(&err_chars, "not permitted") {
                return CliPingText {
                    avg_text: None,
                    loss_text: None,
                    error: Some("requires root or cap_net_raw".to_owned()),
                };
            }
            let out = decode_lossy(stdout.as_slice());
            let out_chars = chars_of(out.as_str());
            CliPingText {
                avg_text: opt_string(cli_avg_text_exec(&out_chars)),
                loss_text: opt_string(loss_text_exec(&out_chars)),
                error: None,
            }
        },
    }
}

/// One line of a streamed ping run, with what it was recognised as.
pub struct PingLine {
    pub line: String,
    pub is_reply: bool,
    pub is_timeout: bool,
    pub is_stats: bool,
    pub requires_root: bool,
}

/// Tells what a line of ping's output is: a reply, a timeout, or part of the statistics.
pub fn classify_ping_line(line: String) -> (r: PingLine)
    ensures
        r.line@ == line@,
        r.is_reply == (contains(line@, "bytes from"@) || contains(line@, "icmp_seq"@)),
        r.is_timeout == (contains(line@, "Request timeout"@) || contains(line@, "no answer"@)),
        r.is_stats == (contains(line@, "packets transmitted"@) || contains(line@, "round-trip"@)
            || contains(line@, "rtt"@)),
        !r.requires_root,
{
    let v = chars_of(line.as_str());
    let is_reply = contains_str(&v, "bytes from") || contains_str(&v, "icmp_seq");
    let is_timeout = contains_str(&v, "Request timeout") || contains_str(&v, "no answer");
    let is_stats = contains_str(&v, "packets transmitted") || contains_str(&v, "round-trip")
        || contains_str(&v, "rtt");
    PingLine { line, is_reply, is_timeout, is_stats, requires_root: false }
}

/// Whether a line of ping's error output tells of missing privileges, whatever its case.
pub fn stderr_needs_root(line: &str) -> (r: bool)
    ensures
        r == denied_text(lowercase(line@)),
{
    let lower = to_lowercase(line);
    is_denied_text(lower.as_str())
}

/// The line that tells the user that ping needs privileges.
pub fn privilege_line() -> (r: PingLine)
    ensures
        r.line@ == "ICMP ping requires elevated privileges on this system."@,
        !r.is_reply && !r.is_timeout && !r.is_stats && r.requires_root,
{
    PingLine {
        line: "ICMP ping requires elevated privileges on this system.".to_owned(),
        is_reply: false,
        is_timeout: false,
        is_stats: false,
        requires_root: true,
    }
}

/// The arguments of a streamed ping run: `-c count` when `count` is not 0 (0 runs until
/// stopped), then the host.
pub fn ping_args(host: &str, count: u32) -> (r: Vec<String>)
    ensures
        count > 0 ==> r.deep_view() == seq!["-c"@, decimal(count as nat), host@],
        count == 0 ==> r.deep_view() == seq![host@],
{
    let mut args: Vec<String> = Vec::new();
    if count > 0 {
        args.push("-c".to_owned());
        let mut n = String::new();
        push_decimal(&mut n, count as u64);
        assert(n@ =~= decimal(count as nat));
        args.push(n);
    }
    args.push(host.to_owned());
    assert(args.deep_view() =~~= (if count > 0 {
        seq!["-c"@, decimal(count as nat), host@]
    } else {
        seq![host@]
    }));
    args
}

/// The error of a streamed ping run that could not be started.
pub fn ping_start_failed(e: &str) -> (r: String)
    ensures
        r@ == "Could not start ping: "@ + e@,
{
    let mut msg = "Could not start ping: ".to_owned();
    msg.append(e);
    msg
}

} // verus!
