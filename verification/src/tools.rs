//! The checks that run a system tool or try a connection: whois, traceroute and the TCP
//! latency check.
use vstd::prelude::*;
use crate::text::{decode_lossy, opt_view, utf8_lossy};

verus! {

/// What the whois check reports.
pub struct WhoisResult {
    pub raw: String,
    pub error: Option<String>,
}

/// The whois report for a run of `whois`: its output, or, when it could not be started,
/// a hint to install it.
pub fn whois_result(run: Result<Vec<u8>, String>) -> (r: WhoisResult)
    ensures
        match run {
            Ok(out) => r.raw@ == utf8_lossy(out@) && r.error is None,
            Err(e) => r.raw@.len() == 0 && opt_view(r.error) == Some(
                "`whois` not found — install: sudo dnf install whois  ("@ + e@ + ")"@,
            ),
        },
{
    match run {
        Ok(out) => WhoisResult { raw: decode_lossy(out.as_slice()), error: None },
        Err(e) => {
            let mut msg = "`whois` not found — install: sudo dnf install whois  (".to_owned();
            msg.append(e.as_str());
            msg.append(")");
            WhoisResult { raw: String::new(), error: Some(msg) }
        },
    }
}

/// The whois report when its task could not be run.
pub fn whois_task_failed(e: String) -> (r: WhoisResult)
    ensures
        r.raw@.len() == 0,
        opt_view(r.error) == Some(e@),
{
    WhoisResult { raw: String::new(), error: Some(e) }
}

/// The command that traces the route to `host`: `traceroute` where it is installed, and
/// `tracepath` (which needs no privileges) otherwise, at most 30 hops.
pub fn traceroute_command(has_traceroute: bool, host: &str) -> (r: (String, Vec<String>))
    ensures
        r.0@ == (if has_traceroute { "traceroute"@ } else { "tracepath"@ }),
        r.1.deep_view() == seq!["-m"@, "30"@, host@],
{
    let cmd = if has_traceroute { "traceroute".to_owned() } else { "tracepath".to_owned() };
    let args = vec!["-m".to_owned(), "30".to_owned(), host.to_owned()];
    assert(args.deep_view() =~~= seq!["-m"@, "30"@, host@]);
    (cmd, args)
}

/// The error of a trace that could not be started.
pub fn trace_start_failed(cmd: &str, e: &str) -> (r: String)
    ensures
        r@ == "Could not start "@ + cmd@ + ": "@ + e@,
{
    let mut msg = "Could not start ".to_owned();
    msg.append(cmd);
    msg.append(": ");
    msg.append(e);
    msg
}

/// What the latency check reports.
pub struct LatencyResult {
    pub ms: Option<u64>,
    pub port: Option<u16>,
    pub error: Option<String>,
}

/// The port that the latency check tries at attempt `index`: 80, then 443.
pub open spec fn latency_port(index: int) -> u16 {
    if index == 0 { 80 } else { 443 }
}

/// What the latency check does next.
pub enum LatencyStep {
    /// Try to connect to the host on `port` (attempt `index`), within five seconds.
    Try { index: usize, port: u16 },
    /// The check is over.
    Done(LatencyResult),
}

/// The first step of the latency check: try port 80.
pub fn latency_start() -> (r: LatencyStep)
    ensures
        r matches LatencyStep::Try { index, port } && index == 0 && port == 80,
{
    LatencyStep::Try { index: 0, port: 80 }
}

/// The step after attempt `index`, which took `answered` milliseconds to connect, or got no
/// connection (`None`, also when the host had no IPv4 address): the first port that answers
/// is reported with its time; after 80 comes 443; when neither answers, the check fails.
pub fn latency_after(index: usize, answered: Option<u64>) -> (r: LatencyStep)
    requires
        index < 2,
    ensures
        match answered {
            Some(ms) => r matches LatencyStep::Done(res) && res.ms == Some(ms) && res.port == Some(
                latency_port(index as int),
            ) && res.error is None,
            None => if index == 0 {
                r matches LatencyStep::Try { index, port } && index == 1 && port == 443
            } else {
                r matches LatencyStep::Done(res) && res.ms is None && res.port is None && opt_view(
                    res.error,
                ) == Some("No response on port 80 or 443"@)
            },
        },
{
    match answered {
        Some(ms) => LatencyStep::Done(latency_reached(ms, if index == 0 { 80 } else { 443 })),
        None => if index == 0 {
            LatencyStep::Try { index: 1, port: 443 }
        } else {
            LatencyStep::Done(latency_unreachable())
        },
    }
}

/// The latency report for a connection to `port` that took `ms` milliseconds.
pub fn latency_reached(ms: u64, port: u16) -> (r: LatencyResult)
    ensures
        r.ms == Some(ms),
        r.port == Some(port),
        r.error is None,
{
    LatencyResult { ms: Some(ms), port: Some(port), error: None }
}

/// The latency report when no port answered.
pub fn latency_unreachable() -> (r: LatencyResult)
    ensures
        r.ms is None,
        r.port is None,
        opt_view(r.error) == Some("No response on port 80 or 443"@),
{
    LatencyResult { ms: None, port: None, error: Some("No response on port 80 or 443".to_owned()) }
}

} // verus!
