//! The scanner's decision logic: the per-host aggregate of answers, the
//! merge of the two protocol outcomes into one result and one verdict, the
//! whole-scan verdict, and the timeout rules.

use vstd::prelude::*;
use crate::addr::Ipv4Address;
use crate::errors::AppError;
use crate::nbns::NbnsAnswer;

verus! {

/// Warn below this timeout: answers may not make it back in time.
pub const TOO_LOW_TIMEOUT_WARNING_MS: u64 = 100;

/// Warn above this timeout: scanning may get slow.
pub const TOO_BIG_TIMEOUT_WARNING_MS: u64 = 3500;

/// The timeout used when none is configured.
pub const DEFAULT_TIMEOUT_MS: u64 = 500;

/// What the configured timeout deserves: a warning at either extreme, or
/// nothing.
#[derive(Clone, Copy, PartialEq, Eq, Structural, Debug)]
pub enum TimeoutAdvice {
    TooLow,
    TooBig,
    Acceptable,
}

/// Classifies a configured timeout for the operator's benefit: at or below
/// the low-warning bound it may lose answers, at or above the big-warning
/// bound it may slow a scan down.
pub fn timeout_advice(ms: u64) -> (r: TimeoutAdvice)
    ensures
        ms <= TOO_LOW_TIMEOUT_WARNING_MS ==> r == TimeoutAdvice::TooLow,
        ms >= TOO_BIG_TIMEOUT_WARNING_MS ==> r == TimeoutAdvice::TooBig,
        TOO_LOW_TIMEOUT_WARNING_MS < ms < TOO_BIG_TIMEOUT_WARNING_MS ==> r
            == TimeoutAdvice::Acceptable,
{
    if ms <= TOO_LOW_TIMEOUT_WARNING_MS {
        TimeoutAdvice::TooLow
    } else if ms >= TOO_BIG_TIMEOUT_WARNING_MS {
        TimeoutAdvice::TooBig
    } else {
        TimeoutAdvice::Acceptable
    }
}

/// Checks a configured timeout: zero is rejected (the sockets would not
/// take it), anything else passes through unchanged.
pub fn validate_timeout_ms(ms: u64) -> (r: Result<u64, AppError>)
    ensures
        r is Ok <==> ms != 0,
        r matches Ok(v) ==> v == ms,
        r matches Err(e) ==> e == AppError::SocketTimeout,
{
    if ms == 0 {
        return Err(AppError::SocketTimeout);
    }
    Ok(ms)
}

/// The per-host aggregate before formatting: the address asked, the NBNS
/// answers in the order they were decoded, and the resolved domain name if
/// mDNS gave one (empty otherwise).
pub struct QueryResult {
    pub ip_addr: Ipv4Address,
    pub host_names: Vec<NbnsAnswer>,
    pub domain_name: String,
}

impl QueryResult {
    /// An empty result for `ip_addr`: no names, no domain name yet.
    pub fn new(ip_addr: Ipv4Address) -> (r: QueryResult)
        ensures
            r.ip_addr == ip_addr,
            r.host_names@.len() == 0,
            r.domain_name@.len() == 0,
    {
        QueryResult { ip_addr, host_names: Vec::new(), domain_name: String::new() }
    }

    /// Whether the host gave nothing at all: no names and no domain name.
    pub fn is_empty(&self) -> (r: bool)
        ensures
            r == (self.host_names@.len() == 0 && self.domain_name@.len() == 0),
    {
        self.host_names.is_empty() && self.domain_name.as_str().is_empty()
    }

    /// Appends one decoded NBNS answer.
    pub fn push_hostname(&mut self, hostname: NbnsAnswer)
        ensures
            final(self).host_names@ == old(self).host_names@.push(hostname),
            final(self).ip_addr == old(self).ip_addr,
            final(self).domain_name == old(self).domain_name,
    {
        self.host_names.push(hostname);
    }

    /// Sets the resolved domain name.
    pub fn set_domain_name(&mut self, domain_name: String)
        ensures
            final(self).domain_name == domain_name,
            final(self).ip_addr == old(self).ip_addr,
            final(self).host_names == old(self).host_names,
    {
        self.domain_name = domain_name;
    }
}

/// Merges a host's two protocol outcomes into its aggregate result and the
/// verdict for the host. An absent reply contributes nothing and is no
/// error. A failing protocol contributes nothing and its error becomes the
/// verdict; when both fail, the verdict is the combined invalid-responses
/// error, the NBNS and mDNS failures collapsing into one.
pub fn merge_outcomes(
    addr: Ipv4Address,
    nbns: Result<Option<Vec<NbnsAnswer>>, AppError>,
    mdns: Result<Option<String>, AppError>,
) -> (r: (QueryResult, Result<(), AppError>))
    ensures
        r.0.ip_addr == addr,
        nbns matches Ok(Some(answers)) ==> r.0.host_names@ == answers@,
        (nbns is Err || (nbns matches Ok(h) && h is None)) ==> r.0.host_names@.len() == 0,
        mdns matches Ok(Some(name)) ==> r.0.domain_name@ == name@,
        (mdns is Err || (mdns matches Ok(d) && d is None)) ==> r.0.domain_name@.len() == 0,
        (nbns is Ok && mdns is Ok) <==> r.1 is Ok,
        nbns matches Err(e) ==> mdns is Ok ==> (r.1 matches Err(e2) && e2 == e),
        mdns matches Err(e) ==> nbns is Ok ==> (r.1 matches Err(e2) && e2 == e),
        (nbns is Err && mdns is Err) ==> (r.1 matches Err(e2) && e2
            == AppError::InvalidResponses),
{
    let mut result = QueryResult::new(addr);

    let nbns_err: Option<AppError> = match nbns {
        Ok(Some(answers)) => {
            result.host_names = answers;
            None
        },
        Ok(None) => None,
        Err(e) => Some(e),
    };

    let mdns_err: Option<AppError> = match mdns {
        Ok(Some(name)) => {
            result.domain_name = name;
            None
        },
        Ok(None) => None,
        Err(e) => Some(e),
    };

    let verdict: Result<(), AppError> = match (nbns_err, mdns_err) {
        (None, None) => Ok(()),
        (Some(e), None) => Err(e),
        (None, Some(e)) => Err(e),
        (Some(_), Some(_)) => Err(AppError::InvalidResponses),
    };

    (result, verdict)
}

/// The whole-scan verdict once every host has been queried: hosts that
/// simply did not answer are no failure, so a scan with no recorded errors
/// succeeds even when it found nothing; any recorded per-host error makes
/// the scan report the single aggregate failure.
pub fn scan_verdict(error_count: usize) -> (r: Result<(), AppError>)
    ensures
        r is Ok <==> error_count == 0,
        r matches Err(e) ==> e == AppError::ScanError,
{
    if error_count == 0 {
        Ok(())
    } else {
        Err(AppError::ScanError)
    }
}

} // verus!
