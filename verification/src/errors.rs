//! The error kinds the resolver reports.

use vstd::prelude::*;

verus! {

/// Everything that can go wrong while querying: address parsing, socket
/// setup and sending, malformed replies, and the range-scan summary.
///
/// A reply that never arrives is not an error; it is reported as an absent
/// answer by the transport.
#[derive(Debug, Clone, Copy, PartialEq, Eq, Structural)]
pub enum AppError {
    ParseAddress,
    ParseAddressesRange,
    SocketCreate,
    SocketConnect,
    SocketSend,
    SocketTimeout,
    InvalidResponseNbns,
    InvalidResponseMdns,
    InvalidResponses,
    ScanError,
    Ipv6,
}

} // verus!
