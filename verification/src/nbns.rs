//! The NetBIOS Name Service codec: building the NODE STATUS query and
//! parsing its multi-name response (RFC 1002).

use vstd::prelude::*;
use crate::codec::{
    spec_be16, spec_u16_hi, spec_u16_lo, read_be16, u16_hi, u16_lo, printable_byte,
    is_printable_byte, push_char,
};
use crate::errors::AppError;
use crate::header::{DnsHeader, spec_header_bytes, single_question_header};

verus! {

/// UDP port the NetBIOS Name Service listens on.
pub const NBNS_PORT: u16 = 137;

/// Size of the NODE STATUS query on the wire: 12-byte header, 34-byte
/// question name, query type and query class of two bytes each.
pub const NBNS_QUERY_SIZE: usize = 50;

/// A response must reach past the echoed request by more than this many
/// bytes to be worth parsing.
pub const NBNS_MIN_RESPONSE_SIZE: usize = 32;

/// Size of one name record in the response.
pub const NBNS_NAME_RECORD_SIZE: usize = 18;

/// A hardware address from the tail of a NODE STATUS response.
#[derive(Clone, Copy, PartialEq, Eq, Structural, Debug)]
pub struct MacAddress(pub u8, pub u8, pub u8, pub u8, pub u8, pub u8);

impl MacAddress {
    /// Constructs `MacAddress`. Returns `None` if slice has not 6 bytes.
    pub fn from_bytes(bytes: &[u8]) -> (r: Option<MacAddress>)
        ensures
            r is Some <==> bytes@.len() == 6,
            r matches Some(m) ==> m == MacAddress(
                bytes@[0],
                bytes@[1],
                bytes@[2],
                bytes@[3],
                bytes@[4],
                bytes@[5],
            ),
    {
        if bytes.len() != 6 {
            return None;
        }
        Some(MacAddress(bytes[0], bytes[1], bytes[2], bytes[3], bytes[4], bytes[5]))
    }
}

/// One answer from a NODE STATUS response: a registered name together with
/// its service byte, classified by the record's group and permanent flag
/// bits, or the responding host's hardware address.
#[derive(Debug)]
pub enum NbnsAnswer {
    Unique((String, u8)),
    Group((String, u8)),
    Permanent((String, u8)),
    PermanentGroup((String, u8)),
    Mac(MacAddress),
}

/// The 34-byte question name of the NODE STATUS query: the well-known
/// wildcard name, constant bytes not derived from the target.
pub open spec fn spec_nbns_question() -> Seq<u8> {
    Seq::new(
        34,
        |i: int|
            if i == 0 {
                0x20u8
            } else if i == 1 {
                0x43u8
            } else if i == 2 {
                0x4bu8
            } else if i == 33 {
                0u8
            } else {
                0x41u8
            },
    )
}

/// The NODE STATUS query: header, the fixed wildcard question name, query
/// type NBSTAT and query class IN.
pub struct NbnsQuery {
    pub header: DnsHeader,
    pub question: [u8; 34],
    pub qtype: u16,
    pub qclass: u16,
}

/// The bytes of the query on the wire.
pub open spec fn spec_nbns_query_bytes(q: NbnsQuery) -> Seq<u8> {
    spec_header_bytes(q.header) + q.question@ + seq![
        spec_u16_hi(q.qtype),
        spec_u16_lo(q.qtype),
        spec_u16_hi(q.qclass),
        spec_u16_lo(q.qclass),
    ]
}

/// The name characters kept from a record: the printable bytes, in order;
/// non-printable bytes are dropped, not substituted.
pub open spec fn filter_printable(s: Seq<u8>) -> Seq<char>
    decreases s.len(),
{
    if s.len() == 0 {
        Seq::empty()
    } else {
        let rest = filter_printable(s.drop_last());
        if printable_byte(s.last()) {
            rest.push(s.last() as char)
        } else {
            rest
        }
    }
}

/// How a name record is classified from its flag byte: group and permanent
/// bits both set make a permanent group name, and that case is decided
/// before either single bit (RFC 1002: 0x80 = group, 0x02 = permanent).
pub open spec fn spec_classified(name: Seq<char>, service: u8, flags: u8, a: NbnsAnswer) -> bool {
    if flags & 0x82 == 0x82 {
        a matches NbnsAnswer::PermanentGroup(p) && p.0@ == name && p.1 == service
    } else if flags & 0x02 != 0 {
        a matches NbnsAnswer::Permanent(p) && p.0@ == name && p.1 == service
    } else if flags & 0x80 != 0 {
        a matches NbnsAnswer::Group(p) && p.0@ == name && p.1 == service
    } else {
        a matches NbnsAnswer::Unique(p) && p.0@ == name && p.1 == service
    }
}

/// Classifies one name record from its flag byte. A record with both the
/// group bit and the permanent bit set is always a permanent group name,
/// never a group or a permanent name alone.
pub fn classify_name_flags(name: String, service: u8, flags: u8) -> (r: NbnsAnswer)
    ensures
        spec_classified(name@, service, flags, r),
        flags & 0x80 != 0 && flags & 0x02 != 0 ==> r is PermanentGroup,
{
    proof {
        assert((flags & 0x80 != 0 && flags & 0x02 != 0) ==> flags & 0x82 == 0x82) by (bit_vector);
    }
    if flags & 0x82 == 0x82 {
        NbnsAnswer::PermanentGroup((name, service))
    } else if flags & 0x02 != 0 {
        NbnsAnswer::Permanent((name, service))
    } else if flags & 0x80 != 0 {
        NbnsAnswer::Group((name, service))
    } else {
        NbnsAnswer::Unique((name, service))
    }
}

/// The declared size of the answer data, read behind the echoed request and
/// the four time-to-live bytes.
pub open spec fn nbns_data_size(buff: Seq<u8>, rl: int) -> int {
    spec_be16(buff[rl + 4], buff[rl + 5])
}

/// The declared number of name records.
pub open spec fn nbns_name_count(buff: Seq<u8>, rl: int) -> int {
    buff[rl + 6] as int
}

/// When a NODE STATUS response parses: it reaches past the echoed request
/// by more than the minimum, declares at least one name, its declared data
/// fits in the buffer, and the declared names all fit in the declared data.
pub open spec fn nbns_response_ok(buff: Seq<u8>, rl: int) -> bool {
    &&& buff.len() > rl + NBNS_MIN_RESPONSE_SIZE
    &&& nbns_name_count(buff, rl) >= 1
    &&& nbns_data_size(buff, rl) <= buff.len() - (rl + 7)
    &&& 18 * nbns_name_count(buff, rl) <= nbns_data_size(buff, rl)
}

/// The bytes of name record `i`.
pub open spec fn nbns_chunk(buff: Seq<u8>, rl: int, i: int) -> Seq<u8> {
    buff.subrange(rl + 7 + 18 * i, rl + 7 + 18 * i + 18)
}

/// Whether the six bytes of a hardware address follow the name records.
pub open spec fn nbns_has_mac(buff: Seq<u8>, rl: int) -> bool {
    rl + 7 + 18 * nbns_name_count(buff, rl) + 6 <= buff.len()
}

/// The answer `a` is the hardware address read right after the name records.
pub open spec fn nbns_mac_record(buff: Seq<u8>, rl: int, a: NbnsAnswer) -> bool {
    let p = rl + 7 + 18 * nbns_name_count(buff, rl);
    a matches NbnsAnswer::Mac(m) && m == MacAddress(
        buff[p],
        buff[p + 1],
        buff[p + 2],
        buff[p + 3],
        buff[p + 4],
        buff[p + 5],
    )
}

/// The answer `a` is name record `i` decoded: bytes 0 to 14 filtered to
/// their printable characters, byte 15 the service, byte 16 the flags.
pub open spec fn nbns_record_ok(buff: Seq<u8>, rl: int, i: int, a: NbnsAnswer) -> bool {
    let c = nbns_chunk(buff, rl, i);
    spec_classified(filter_printable(c.subrange(0, 15)), c[15], c[16], a)
}

/// What a successful parse returns: the declared name records in order,
/// then the hardware address if its bytes are present.
pub open spec fn nbns_answers_ok(buff: Seq<u8>, rl: int, v: Seq<NbnsAnswer>) -> bool {
    let n = nbns_name_count(buff, rl);
    &&& v.len() == n + (if nbns_has_mac(buff, rl) {
        1int
    } else {
        0int
    })
    &&& (forall|i: int| 0 <= i < n ==> nbns_record_ok(buff, rl, i, v[i]))
    &&& (nbns_has_mac(buff, rl) ==> nbns_mac_record(buff, rl, v[n]))
}

impl NbnsQuery {
    /// Builds the NODE STATUS query: a random-transaction-id header and the
    /// constant wildcard question, type NBSTAT (0x0021), class IN (0x0001).
    pub fn new() -> (r: NbnsQuery)
        ensures
            single_question_header(r.header),
            r.question@ == spec_nbns_question(),
            r.qtype == 0x0021,
            r.qclass == 0x0001,
    {
        // The same question is sent by the familiar NODE STATUS scanners.
        let mut question: [u8; 34] = [0x41u8; 34];
        question[0] = 0x20;
        question[1] = 0x43;
        question[2] = 0x4b;
        question[33] = 0;
        let r = NbnsQuery {
            header: DnsHeader::new_nbns(),
            question,
            qtype: 0x0021,
            qclass: 0x0001,
        };
        proof {
            assert(r.question@ =~= spec_nbns_question());
        }
        r
    }

    /// Packs the query for the wire. The result always has the fixed NBNS
    /// query size.
    pub fn to_packet(&self) -> (r: Vec<u8>)
        ensures
            r@ == spec_nbns_query_bytes(*self),
            r@.len() == NBNS_QUERY_SIZE,
    {
        let mut out = self.header.to_bytes();
        out.extend_from_slice(self.question.as_slice());
        out.push(u16_hi(self.qtype));
        out.push(u16_lo(self.qtype));
        out.push(u16_hi(self.qclass));
        out.push(u16_lo(self.qclass));
        proof {
            assert(out@ =~= spec_nbns_query_bytes(*self));
        }
        out
    }

    /// Parses a NODE STATUS response. `request_len` is the length of the
    /// request the response echoes back. The layout, behind the echoed
    /// request and four time-to-live bytes, is: a big-endian 16-bit data
    /// size, an 8-bit name count, the 18-byte name records, then six bytes
    /// of hardware address if present. A buffer too short for its declared
    /// content is rejected whole, never partially decoded.
    pub fn parse_response(buff: &[u8], request_len: usize) -> (r: Result<
        Vec<NbnsAnswer>,
        AppError,
    >)
        ensures
            r is Ok <==> nbns_response_ok(buff@, request_len as int),
            r matches Ok(v) ==> nbns_answers_ok(buff@, request_len as int, v@),
            r matches Err(e) ==> e == AppError::InvalidResponseNbns,
    {
        let len = buff.len();
        if len <= request_len || len - request_len <= NBNS_MIN_RESPONSE_SIZE {
            return Err(AppError::InvalidResponseNbns);
        }
        let data_size = read_be16(buff[request_len + 4], buff[request_len + 5]) as usize;
        let names_count = buff[request_len + 6] as usize;
        let start = request_len + 7;
        if names_count == 0 {
            return Err(AppError::InvalidResponseNbns);
        }
        if data_size > len - start {
            return Err(AppError::InvalidResponseNbns);
        }
        if names_count * NBNS_NAME_RECORD_SIZE > data_size {
            return Err(AppError::InvalidResponseNbns);
        }

        let ghost rl = request_len as int;
        let mut answers: Vec<NbnsAnswer> = Vec::new();
        let mut i: usize = 0;
        while i < names_count
            invariant
                i <= names_count,
                answers@.len() == i,
                start == request_len + 7,
                names_count == nbns_name_count(buff@, rl),
                rl == request_len as int,
                len == buff@.len(),
                start + names_count * 18 <= len,
                forall|j: int| 0 <= j < i ==> nbns_record_ok(buff@, rl, j, answers@[j]),
            decreases names_count - i,
        {
            let base = start + i * NBNS_NAME_RECORD_SIZE;
            let mut name = String::new();
            let mut j: usize = 0;
            while j < 15
                invariant
                    j <= 15,
                    base == start + i * 18,
                    i < names_count,
                    start == request_len + 7,
                    len == buff@.len(),
                    start + names_count * 18 <= len,
                    name@ == filter_printable(buff@.subrange(base as int, base + j)),
                decreases 15 - j,
            {
                let b = buff[base + j];
                proof {
                    assert(buff@.subrange(base as int, base + j + 1).drop_last() =~= buff@
                        .subrange(base as int, base + j));
                    assert(buff@.subrange(base as int, base + j + 1).last() == buff@[base + j]);
                }
                if is_printable_byte(b) {
                    push_char(&mut name, b as char);
                }
                j = j + 1;
            }
            let service = buff[base + 15];
            let flags = buff[base + 16];
            proof {
                let c = nbns_chunk(buff@, rl, i as int);
                assert(c.subrange(0, 15) =~= buff@.subrange(base as int, base as int + 15));
                assert(c[15] == buff@[base + 15]);
                assert(c[16] == buff@[base + 16]);
            }
            let a = classify_name_flags(name, service, flags);
            answers.push(a);
            i = i + 1;
        }

        let mac_off = start + names_count * NBNS_NAME_RECORD_SIZE;
        if len - mac_off >= 6 {
            answers.push(
                NbnsAnswer::Mac(
                    MacAddress(
                        buff[mac_off],
                        buff[mac_off + 1],
                        buff[mac_off + 2],
                        buff[mac_off + 3],
                        buff[mac_off + 4],
                        buff[mac_off + 5],
                    ),
                ),
            );
        }
        Ok(answers)
    }

    /// Applies the transport outcome to the parser: a reply that never came
    /// is a normal absent answer, not an error; a transport error passes
    /// through; a received buffer is parsed.
    pub fn evaluate_reply(reply: Result<Option<Vec<u8>>, AppError>, request_len: usize) -> (r:
        Result<Option<Vec<NbnsAnswer>>, AppError>)
        ensures
            reply matches Err(e) ==> (r matches Err(e2) && e2 == e),
            (reply matches Ok(b) && b is None) ==> (r matches Ok(v) && v is None),
            reply matches Ok(Some(bytes)) ==> {
                &&& (r is Ok <==> nbns_response_ok(bytes@, request_len as int))
                &&& (r matches Ok(v) ==> v matches Some(ans) && nbns_answers_ok(
                    bytes@,
                    request_len as int,
                    ans@,
                ))
                &&& (r matches Err(e) ==> e == AppError::InvalidResponseNbns)
            },
    {
        match reply {
            Err(e) => Err(e),
            Ok(None) => Ok(None),
            Ok(Some(bytes)) => match Self::parse_response(bytes.as_slice(), request_len) {
                Ok(v) => Ok(Some(v)),
                Err(e) => Err(e),
            },
        }
    }
}

/// A buffer that does not reach past the echoed request by more than the
/// NBNS minimum response size never parses: short responses are rejected
/// whole, never decoded partially.
pub proof fn lemma_short_nbns_response_rejected(buff: Seq<u8>, rl: int)
    requires
        buff.len() <= rl + NBNS_MIN_RESPONSE_SIZE,
    ensures
        !nbns_response_ok(buff, rl),
{
}

} // verus!
