//! Resolution of a host's NetBIOS and mDNS-visible names: wire encodings for
//! the NetBIOS NODE STATUS query/response and the mDNS reverse-PTR
//! query/response, together with the pure decision logic of the scanner that
//! fans a per-host query out across a CIDR range.
//!
//! - [`addr`] reads target text, expands CIDR blocks into host addresses;
//! - [`codec`] holds the byte-level helpers both protocols share;
//! - [`header`] builds the 12-byte query header;
//! - [`nbns`] and [`mdns`] build the two queries and parse their responses;
//! - [`scan`] merges per-host outcomes and judges a whole scan;
//! - [`errors`] names everything that can go wrong.
//!
//! The sockets themselves, the command line and the table formatting live
//! outside the library; it hands them plain values and takes plain values
//! back.

pub mod addr;
pub mod codec;
pub mod errors;
pub mod header;
pub mod mdns;
pub mod nbns;
pub mod scan;

use vstd::prelude::*;

verus! {

/// Size of the buffer a reply datagram is received into; longer replies are
/// truncated by design.
pub const RECV_BUFF_SIZE: usize = 256;

} // verus!
