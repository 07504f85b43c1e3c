//! The 12-byte query header shared by the NBNS and mDNS queries.

use vstd::prelude::*;
use crate::codec::{spec_u16_hi, spec_u16_lo, u16_hi, u16_lo};

verus! {

/// Size of the query header on the wire.
pub const DNS_HEADER_SIZE: usize = 12;

/// The query header both protocols put in front of their question: a
/// transaction id, a flags word, and the four section counts, each 16 bits
/// and big-endian on the wire.
#[derive(Clone, Copy, PartialEq, Eq, Structural, Debug)]
pub struct DnsHeader {
    pub trans_id: u16,
    pub flags: u16,
    pub qdcount: u16,
    pub ancount: u16,
    pub nscount: u16,
    pub arcount: u16,
}

/// The twelve header bytes: each field big-endian, in field order.
pub open spec fn spec_header_bytes(h: DnsHeader) -> Seq<u8> {
    seq![
        spec_u16_hi(h.trans_id),
        spec_u16_lo(h.trans_id),
        spec_u16_hi(h.flags),
        spec_u16_lo(h.flags),
        spec_u16_hi(h.qdcount),
        spec_u16_lo(h.qdcount),
        spec_u16_hi(h.ancount),
        spec_u16_lo(h.ancount),
        spec_u16_hi(h.nscount),
        spec_u16_lo(h.nscount),
        spec_u16_hi(h.arcount),
        spec_u16_lo(h.arcount),
    ]
}

/// A header asking one question and carrying no answers: what both queries
/// send, up to the transaction id. The flags word is zero in both: a
/// NODE STATUS request is signalled by its question type, never by a
/// header flag (RFC 1002 defines no such bit), and a zero flags word is
/// what a plain unicast query carries.
pub open spec fn single_question_header(h: DnsHeader) -> bool {
    &&& h.flags == 0
    &&& h.qdcount == 1
    &&& h.ancount == 0
    &&& h.nscount == 0
    &&& h.arcount == 0
}

/// Relies on `rand::random`: draws a value from the thread-local generator.
/// Nothing is promised of the result.
pub assume_specification<T>[ rand::random::<T> ]() -> (r: T)
    where
        rand::distr::StandardUniform: rand::distr::Distribution<T>,
;

impl DnsHeader {
    /// The header of an NBNS NODE STATUS query: a process-random transaction
    /// id (requests are not correlated beyond one in-flight exchange per
    /// socket, so a collision is harmless) and one question. The flags word
    /// is deliberately zero: what makes this packet a node-status request is
    /// the NBSTAT question type, not a header flag — RFC 1002 has no
    /// request-node-status bit, and a set bit here would make interoperable
    /// peers drop the query.
    pub fn new_nbns() -> (r: DnsHeader)
        ensures
            single_question_header(r),
            r.flags == 0,
    {
        DnsHeader {
            trans_id: rand::random::<u16>(),
            flags: 0,
            qdcount: 1,
            ancount: 0,
            nscount: 0,
            arcount: 0,
        }
    }

    /// The header of an mDNS unicast query: the transaction id must be zero
    /// by the mDNS unicast-query convention, flags are zero, one question.
    pub fn new_mdns() -> (r: DnsHeader)
        ensures
            single_question_header(r),
            r.trans_id == 0,
    {
        DnsHeader {
            trans_id: 0,
            flags: 0,
            qdcount: 1,
            ancount: 0,
            nscount: 0,
            arcount: 0,
        }
    }

    /// Packs the header for the wire: each field big-endian, in field order.
    pub fn to_bytes(&self) -> (r: Vec<u8>)
        ensures
            r@ == spec_header_bytes(*self),
            r@.len() == DNS_HEADER_SIZE,
    {
        let mut out: Vec<u8> = Vec::new();
        out.push(u16_hi(self.trans_id));
        out.push(u16_lo(self.trans_id));
        out.push(u16_hi(self.flags));
        out.push(u16_lo(self.flags));
        out.push(u16_hi(self.qdcount));
        out.push(u16_lo(self.qdcount));
        out.push(u16_hi(self.ancount));
        out.push(u16_lo(self.ancount));
        out.push(u16_hi(self.nscount));
        out.push(u16_lo(self.nscount));
        out.push(u16_hi(self.arcount));
        out.push(u16_lo(self.arcount));
        proof {
            assert(out@ =~= spec_header_bytes(*self));
        }
        out
    }
}

} // verus!
