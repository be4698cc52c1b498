//! The TLS certificate check: which hosts it applies to, and what it reports for each way
//! that a check can end.
use vstd::prelude::*;
use crate::dns::{first_ipv4, first_some};
use crate::text::opt_view;

verus! {

/// Whether `Ipv4Addr`'s or `Ipv6Addr`'s reader (`IpAddr::from_str`) accepts `s`.
pub uninterp spec fn std_ip_addr_parses(s: Seq<char>) -> bool;

/// Calls `IpAddr::from_str` and tells whether it accepted the text. The contract names the
/// result and says nothing more of it.
#[verifier::external_body]
fn parses_as_ip_addr(s: &str) -> (r: bool)
    ensures
        r == std_ip_addr_parses(s@),
{
    s.parse::<core::net::IpAddr>().is_ok()
}

/// Whether `host` is a bare IP address rather than a name.
pub fn is_ip_literal(host: &str) -> (r: bool)
    ensures
        r == std_ip_addr_parses(host@),
{
    parses_as_ip_addr(host)
}

/// What a certificate that the server presented tells.
pub struct CertFacts {
    pub expires: String,
    pub days_remaining: Option<i64>,
    pub subject: Option<String>,
    pub issuer: Option<String>,
}

/// How a certificate check ended.
pub enum SslOutcome {
    IpLiteral,
    NoIpv4Record,
    DnsError(String),
    InitError(String),
    ConnectError(String),
    HandshakeError(String),
    NoCertificate,
    Certificate(CertFacts),
    TaskError(String),
}

/// What the certificate check reports.
pub struct SslResult {
    pub valid: bool,
    pub days_remaining: Option<i64>,
    pub subject: Option<String>,
    pub issuer: Option<String>,
    pub expires: Option<String>,
    pub error: Option<String>,
}

/// The error that the check reports for an outcome, if it is not a certificate.
pub open spec fn outcome_error(o: SslOutcome) -> Option<Seq<char>> {
    match o {
        SslOutcome::IpLiteral => Some("SSL check requires a domain name, not a bare IP"@),
        SslOutcome::NoIpv4Record => Some("DNS resolution failed (no IPv4 record)"@),
        SslOutcome::DnsError(e) => Some("DNS error: "@ + e@),
        SslOutcome::InitError(e) => Some("SSL init: "@ + e@),
        SslOutcome::ConnectError(e) => Some("TCP connect: "@ + e@),
        SslOutcome::HandshakeError(e) => Some("TLS handshake: "@ + e@),
        SslOutcome::NoCertificate => Some("No certificate presented"@),
        SslOutcome::TaskError(e) => Some("Task error: "@ + e@),
        SslOutcome::Certificate(_) => None,
    }
}

/// What the check reports for an outcome: for a certificate, its figures, valid when it has
/// a number of days left that is not negative; otherwise only the error.
pub open spec fn ssl_result_holds(o: SslOutcome, r: SslResult) -> bool {
    match o {
        SslOutcome::Certificate(c) => {
            &&& r.valid == (c.days_remaining is Some && c.days_remaining->0 >= 0)
            &&& r.days_remaining == c.days_remaining
            &&& opt_view(r.subject) == opt_view(c.subject)
            &&& opt_view(r.issuer) == opt_view(c.issuer)
            &&& opt_view(r.expires) == Some(c.expires@)
            &&& r.error is None
        },
        _ => {
            &&& !r.valid
            &&& r.days_remaining is None
            &&& r.subject is None
            &&& r.issuer is None
            &&& r.expires is None
            &&& opt_view(r.error) == outcome_error(o)
        },
    }
}

fn failed(msg: String) -> (r: SslResult)
    ensures
        !r.valid,
        r.days_remaining is None,
        r.subject is None,
        r.issuer is None,
        r.expires is None,
        opt_view(r.error) == Some(msg@),
{
    SslResult {
        valid: false,
        days_remaining: None,
        subject: None,
        issuer: None,
        expires: None,
        error: Some(msg),
    }
}

fn joined(msg: &str, detail: &str) -> (r: String)
    ensures
        r@ == msg@ + detail@,
{
    let mut m = msg.to_owned();
    m.append(detail);
    m
}

/// What the certificate check reports for an outcome.
pub fn ssl_result(outcome: SslOutcome) -> (r: SslResult)
    ensures
        ssl_result_holds(outcome, r),
{
    match outcome {
        SslOutcome::IpLiteral => failed(
            "SSL check requires a domain name, not a bare IP".to_owned(),
        ),
        SslOutcome::NoIpv4Record => failed("DNS resolution failed (no IPv4 record)".to_owned()),
        SslOutcome::DnsError(e) => failed(joined("DNS error: ", e.as_str())),
        SslOutcome::InitError(e) => failed(joined("SSL init: ", e.as_str())),
        SslOutcome::ConnectError(e) => failed(joined("TCP connect: ", e.as_str())),
        SslOutcome::HandshakeError(e) => failed(joined("TLS handshake: ", e.as_str())),
        SslOutcome::NoCertificate => failed("No certificate presented".to_owned()),
        SslOutcome::TaskError(e) => failed(joined("Task error: ", e.as_str())),
        SslOutcome::Certificate(c) => {
            let valid = match c.days_remaining {
                Some(d) => d >= 0,
                None => false,
            };
            SslResult {
                valid,
                days_remaining: c.days_remaining,
                subject: c.subject,
                issuer: c.issuer,
                expires: Some(c.expires),
                error: None,
            }
        },
    }
}

/// What the certificate check does next.
pub enum SslStep {
    /// Look up the host's addresses (port 443).
    Lookup,
    /// Connect to this IPv4 address on port 443 and read the certificate.
    Connect(u32),
    /// The check is over.
    Done(SslResult),
}

/// The first step of the certificate check of `host`: a bare IP address ends the check with
/// the error that asks for a domain name, before any lookup; a name is looked up.
pub fn ssl_start(host: &str) -> (r: SslStep)
    ensures
        (r is Done) <==> std_ip_addr_parses(host@),
        r matches SslStep::Done(res) ==> ssl_result_holds(SslOutcome::IpLiteral, res),
        !std_ip_addr_parses(host@) ==> r is Lookup,
{
    if is_ip_literal(host) {
        SslStep::Done(ssl_result(SslOutcome::IpLiteral))
    } else {
        SslStep::Lookup
    }
}

/// The step of the certificate check after the lookup of the host: connect to its first
/// IPv4 address, or end the check with the lookup's error.
pub fn ssl_after_lookup(lookup: Result<Vec<Option<u32>>, String>) -> (r: SslStep)
    ensures
        match lookup {
            Err(e) => r matches SslStep::Done(res) && ssl_result_holds(
                SslOutcome::DnsError(e),
                res,
            ),
            Ok(addrs) => match first_some(addrs@) {
                Some(a) => r == SslStep::Connect(a),
                None => r matches SslStep::Done(res) && ssl_result_holds(
                    SslOutcome::NoIpv4Record,
                    res,
                ),
            },
        },
{
    match lookup {
        Err(e) => SslStep::Done(ssl_result(SslOutcome::DnsError(e))),
        Ok(addrs) => match first_ipv4(&addrs) {
            Some(a) => SslStep::Connect(a),
            None => SslStep::Done(ssl_result(SslOutcome::NoIpv4Record)),
        },
    }
}

} // verus!
