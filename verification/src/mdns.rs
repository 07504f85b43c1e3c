//! The mDNS codec: building a reverse-lookup (PTR) query for an IPv4
//! address and parsing the returned domain name (RFC 6762).

use vstd::prelude::*;
use crate::addr::Ipv4Address;
use crate::codec::{
    spec_be16, spec_u16_hi, spec_u16_lo, read_be16, u16_hi, u16_lo, dec_len, dec_digits,
    push_dec_digits, printable_byte, is_printable_byte, push_char, chars_of,
};
use crate::errors::AppError;
use crate::header::{DnsHeader, spec_header_bytes, single_question_header, DNS_HEADER_SIZE};

verus! {

/// UDP port mDNS listens on.
pub const MDNS_PORT: u16 = 5353;

/// A response must reach past the echoed request by more than this many
/// bytes to be worth parsing.
pub const MDNS_MIN_RESPONSE_SIZE: usize = 18;

/// One label of the reverse name: the octet's decimal digits, preceded by
/// their count.
pub open spec fn label_of(o: u8) -> Seq<u8> {
    seq![dec_len(o) as u8] + dec_digits(o)
}

/// The two fixed labels "in-addr" and "arpa", each length-prefixed.
pub open spec fn in_addr_arpa_labels() -> Seq<u8> {
    seq![7u8, 0x69, 0x6e, 0x2d, 0x61, 0x64, 0x64, 0x72, 4u8, 0x61, 0x72, 0x70, 0x61]
}

/// The label sequence of the reverse name for `ip`: the octets in reverse
/// order, each as its length-prefixed decimal label, then "in-addr" and
/// "arpa". The null terminator is not included here.
pub open spec fn name_labels(ip: Ipv4Address) -> Seq<u8> {
    label_of(ip.3) + label_of(ip.2) + label_of(ip.1) + label_of(ip.0) + in_addr_arpa_labels()
}

/// The encoded query name: the labels, null-terminated.
pub open spec fn spec_qname(ip: Ipv4Address) -> Seq<u8> {
    name_labels(ip) + seq![0u8]
}

/// The reverse-PTR query for `ip`, byte for byte: a zeroed header asking
/// one question, the encoded reverse name, query type PTR and class IN.
pub open spec fn spec_mdns_query_packet(ip: Ipv4Address) -> Seq<u8> {
    seq![0u8, 0, 0, 0, 0, 1, 0, 0, 0, 0, 0, 0] + spec_qname(ip) + seq![0u8, 0x0c, 0u8, 0x01]
}

/// The exact size of the query: the header, each octet's decimal digits
/// with its length byte, the two fixed labels with theirs, the null
/// terminator, and the four type and class bytes.
pub open spec fn mdns_query_len(ip: Ipv4Address) -> int {
    DNS_HEADER_SIZE + (dec_len(ip.3) + 1) + (dec_len(ip.2) + 1) + (dec_len(ip.1) + 1) + (dec_len(
        ip.0,
    ) + 1) + 1 + 7 + 1 + 4 + 1 + 4
}

/// The reverse-lookup query: header, the dynamically encoded reverse name,
/// query type PTR and query class IN.
pub struct MdnsQuery {
    pub header: DnsHeader,
    pub qname: Vec<u8>,
    pub qtype: u16,
    pub qclass: u16,
}

/// The bytes of the query on the wire.
pub open spec fn spec_mdns_query_bytes(q: &MdnsQuery) -> Seq<u8> {
    spec_header_bytes(q.header) + q.qname@ + seq![
        spec_u16_hi(q.qtype),
        spec_u16_lo(q.qtype),
        spec_u16_hi(q.qclass),
        spec_u16_lo(q.qclass),
    ]
}

/// Appends one length-prefixed decimal label to `out`.
fn push_label(o: u8, out: &mut Vec<u8>)
    ensures
        final(out)@ == old(out)@ + label_of(o),
{
    if o < 10 {
        out.push(1);
    } else if o < 100 {
        out.push(2);
    } else {
        out.push(3);
    }
    push_dec_digits(o, out);
    proof {
        assert(out@ =~= old(out)@ + label_of(o));
    }
}

impl MdnsQuery {
    /// Builds the reverse-PTR query for `ip`: a zero transaction id (the
    /// mDNS unicast-query convention), the reverse name, type PTR (0x000c),
    /// class IN (0x0001).
    pub fn new(ip: Ipv4Address) -> (r: MdnsQuery)
        ensures
            single_question_header(r.header),
            r.header.trans_id == 0,
            r.qname@ == spec_qname(ip),
            r.qtype == 0x000c,
            r.qclass == 0x0001,
    {
        let mut qname: Vec<u8> = Vec::new();
        push_label(ip.3, &mut qname);
        push_label(ip.2, &mut qname);
        push_label(ip.1, &mut qname);
        push_label(ip.0, &mut qname);
        qname.push(7);
        qname.push(0x69);
        qname.push(0x6e);
        qname.push(0x2d);
        qname.push(0x61);
        qname.push(0x64);
        qname.push(0x64);
        qname.push(0x72);
        qname.push(4);
        qname.push(0x61);
        qname.push(0x72);
        qname.push(0x70);
        qname.push(0x61);
        qname.push(0);
        proof {
            assert(qname@ =~= spec_qname(ip));
        }
        MdnsQuery { header: DnsHeader::new_mdns(), qname, qtype: 0x000c, qclass: 0x0001 }
    }

    /// Packs the query for the wire.
    pub fn to_packet(&self) -> (r: Vec<u8>)
        ensures
            r@ == spec_mdns_query_bytes(self),
            r@.len() == DNS_HEADER_SIZE + self.qname@.len() + 4,
    {
        let mut out = self.header.to_bytes();
        out.extend_from_slice(self.qname.as_slice());
        out.push(u16_hi(self.qtype));
        out.push(u16_lo(self.qtype));
        out.push(u16_hi(self.qclass));
        out.push(u16_lo(self.qclass));
        proof {
            assert(out@ =~= spec_mdns_query_bytes(self));
        }
        out
    }

    /// Builds the whole query packet for `ip`. Its bytes are a pure
    /// function of the four octets, and its size is the header plus the
    /// decimal-digit count of each octet with one length byte each, the
    /// two fixed labels, the terminator, and the type and class fields.
    pub fn build_query(ip: Ipv4Address) -> (r: Vec<u8>)
        ensures
            r@ == spec_mdns_query_packet(ip),
            r@.len() == mdns_query_len(ip),
    {
        let q = Self::new(ip);
        let packet = q.to_packet();
        proof {
            assert(spec_header_bytes(q.header) =~= seq![0u8, 0, 0, 0, 0, 1, 0, 0, 0, 0, 0, 0]);
            assert(packet@ =~= spec_mdns_query_packet(ip));
        }
        packet
    }
}

/// Decoding a run of length-prefixed labels, `word` bytes still owed to the
/// current label: when the count is spent, the next byte is the next
/// label's length and a separating dot is emitted in its place; inside a
/// label, printable bytes are kept and others dropped.
pub open spec fn decode_labels(s: Seq<u8>, word: int) -> Seq<char>
    decreases s.len(),
{
    if s.len() == 0 {
        Seq::empty()
    } else if word <= 0 {
        seq!['.'] + decode_labels(s.drop_first(), s[0] as int)
    } else if printable_byte(s[0]) {
        seq![s[0] as char] + decode_labels(s.drop_first(), word - 1)
    } else {
        decode_labels(s.drop_first(), word - 1)
    }
}

/// Decoding a whole label sequence: the first byte seeds the first label's
/// length, the rest is decoded after it.
pub open spec fn decode_name(s: Seq<u8>) -> Seq<char> {
    if s.len() == 0 {
        Seq::empty()
    } else {
        decode_labels(s.drop_first(), s[0] as int)
    }
}

/// The declared answer size, read behind the echoed request and the eight
/// response-name, type, class and time-to-live bytes.
pub open spec fn mdns_answer_size(buff: Seq<u8>, rl: int) -> int {
    spec_be16(buff[rl + 10], buff[rl + 11])
}

/// When an mDNS response parses: it reaches past the echoed request by
/// more than the minimum and declares an answer big enough to hold its
/// own terminator.
pub open spec fn mdns_response_ok(buff: Seq<u8>, rl: int) -> bool {
    &&& buff.len() > rl + MDNS_MIN_RESPONSE_SIZE
    &&& mdns_answer_size(buff, rl) >= 2
}

/// The label bytes the parser walks: everything after the first length
/// byte, bounded by the declared answer size less its two trailing bytes
/// and by the end of the buffer.
pub open spec fn mdns_body(buff: Seq<u8>, rl: int) -> Seq<u8> {
    let avail = buff.len() - (rl + 13);
    let want = mdns_answer_size(buff, rl) - 2;
    let n = if want < avail {
        want
    } else {
        avail
    };
    buff.subrange(rl + 13, rl + 13 + n)
}

/// The dotted name a good response decodes to.
pub open spec fn mdns_name(buff: Seq<u8>, rl: int) -> Seq<char> {
    decode_labels(mdns_body(buff, rl), buff[rl + 12] as int)
}

impl MdnsQuery {
    /// Parses an mDNS reverse-PTR response. `request_len` is the length of
    /// the request the response echoes back. Behind the echoed request and
    /// ten fixed bytes stands a big-endian 16-bit answer size, then the
    /// length-prefixed labels of the name. A buffer below the minimum
    /// viable size is rejected whole, never partially decoded.
    pub fn parse_response(buff: &[u8], request_len: usize) -> (r: Result<String, AppError>)
        ensures
            r is Ok <==> mdns_response_ok(buff@, request_len as int),
            r matches Ok(name) ==> name@ == mdns_name(buff@, request_len as int),
            r matches Err(e) ==> e == AppError::InvalidResponseMdns,
    {
        let len = buff.len();
        if len <= request_len || len - request_len <= MDNS_MIN_RESPONSE_SIZE {
            return Err(AppError::InvalidResponseMdns);
        }
        let answer_size = read_be16(buff[request_len + 10], buff[request_len + 11]) as usize;
        if answer_size < 2 {
            return Err(AppError::InvalidResponseMdns);
        }

        let mut word: u8 = buff[request_len + 12];
        let ghost first_word = word;
        let start = request_len + 13;
        let avail = len - start;
        let want = answer_size - 2;
        let n = if want < avail {
            want
        } else {
            avail
        };
        let ghost body = buff@.subrange(start as int, start + n as int);
        proof {
            assert(body =~= mdns_body(buff@, request_len as int));
        }

        let mut name = String::new();
        let mut i: usize = 0;
        proof {
            assert(body.skip(0) =~= body);
            assert(name@ + decode_labels(body, first_word as int) =~= decode_labels(
                body,
                first_word as int,
            ));
        }
        while i < n
            invariant
                i <= n,
                start == request_len + 13,
                start + n <= len,
                len == buff@.len(),
                body == buff@.subrange(start as int, start + n as int),
                decode_labels(body, first_word as int) == name@ + decode_labels(
                    body.skip(i as int),
                    word as int,
                ),
            decreases n - i,
        {
            let b = buff[start + i];
            proof {
                assert(body.skip(i as int)[0] == b);
                assert(body.skip(i as int).drop_first() =~= body.skip(i + 1));
            }
            if word == 0 {
                word = b;
                push_char(&mut name, '.');
            } else {
                word = word - 1;
                if is_printable_byte(b) {
                    push_char(&mut name, b as char);
                }
            }
            i = i + 1;
        }
        proof {
            assert(body.skip(n as int) =~= Seq::<u8>::empty());
            assert(name@ =~= mdns_name(buff@, request_len as int));
        }
        Ok(name)
    }

    /// Applies the transport outcome to the parser: a reply that never came
    /// is a normal absent answer, not an error; a transport error passes
    /// through; a received buffer is parsed.
    pub fn evaluate_reply(reply: Result<Option<Vec<u8>>, AppError>, request_len: usize) -> (r:
        Result<Option<String>, AppError>)
        ensures
            reply matches Err(e) ==> (r matches Err(e2) && e2 == e),
            (reply matches Ok(b) && b is None) ==> (r matches Ok(v) && v is None),
            reply matches Ok(Some(bytes)) ==> {
                &&& (r is Ok <==> mdns_response_ok(bytes@, request_len as int))
                &&& (r matches Ok(v) ==> v matches Some(name) && name@ == mdns_name(
                    bytes@,
                    request_len as int,
                ))
                &&& (r matches Err(e) ==> e == AppError::InvalidResponseMdns)
            },
    {
        match reply {
            Err(e) => Err(e),
            Ok(None) => Ok(None),
            Ok(Some(bytes)) => match Self::parse_response(bytes.as_slice(), request_len) {
                Ok(name) => Ok(Some(name)),
                Err(e) => Err(e),
            },
        }
    }
}

/// Decoding a run of printable bytes that exactly fills the current label
/// keeps those bytes as characters and then continues with a spent count.
proof fn lemma_decode_word_run(s: Seq<u8>, t: Seq<u8>)
    requires
        forall|i: int| 0 <= i < s.len() ==> printable_byte(s[i]),
    ensures
        decode_labels(s + t, s.len() as int) == chars_of(s) + decode_labels(t, 0),
    decreases s.len(),
{
    if s.len() == 0 {
        assert(s + t =~= t);
        assert(chars_of(s) + decode_labels(t, 0) =~= decode_labels(t, 0));
    } else {
        assert((s + t).drop_first() =~= s.drop_first() + t);
        lemma_decode_word_run(s.drop_first(), t);
        assert(chars_of(s) =~= seq![s[0] as char] + chars_of(s.drop_first()));
        assert(seq![s[0] as char] + (chars_of(s.drop_first()) + decode_labels(t, 0)) =~= chars_of(
            s,
        ) + decode_labels(t, 0));
    }
}

/// With the current label spent, a length byte starts the next label: a
/// dot is emitted in its place and its value seeds the new count.
proof fn lemma_decode_label_start(k: u8, u: Seq<u8>)
    ensures
        decode_labels(seq![k] + u, 0) == seq!['.'] + decode_labels(u, k as int),
{
    assert((seq![k] + u)[0] == k);
    assert((seq![k] + u).drop_first() =~= u);
}

/// The decimal digits of an octet are all printable.
proof fn lemma_dec_digits_printable(o: u8)
    ensures
        forall|i: int| 0 <= i < dec_digits(o).len() ==> printable_byte(dec_digits(o)[i]),
        dec_digits(o).len() == dec_len(o),
{
}

/// Decoding one decimal label in the middle of a name: a dot, the octet's
/// digits, and the rest.
proof fn lemma_decode_octet_then(o: u8, t: Seq<u8>)
    ensures
        decode_labels(label_of(o) + t, 0) == seq!['.'] + chars_of(dec_digits(o)) + decode_labels(
            t,
            0,
        ),
{
    assert(label_of(o) + t =~= seq![dec_len(o) as u8] + (dec_digits(o) + t));
    lemma_decode_label_start(dec_len(o) as u8, dec_digits(o) + t);
    lemma_dec_digits_printable(o);
    lemma_decode_word_run(dec_digits(o), t);
    assert(seq!['.'] + (chars_of(dec_digits(o)) + decode_labels(t, 0)) =~= seq!['.'] + chars_of(
        dec_digits(o),
    ) + decode_labels(t, 0));
}

/// Decoding the first decimal label of a name: the octet's digits, then
/// the rest; no leading dot.
proof fn lemma_decode_octet_first(o: u8, t: Seq<u8>)
    ensures
        decode_name(label_of(o) + t) == chars_of(dec_digits(o)) + decode_labels(t, 0),
{
    assert((label_of(o) + t)[0] == dec_len(o) as u8);
    assert((label_of(o) + t).drop_first() =~= dec_digits(o) + t);
    lemma_dec_digits_printable(o);
    lemma_decode_word_run(dec_digits(o), t);
}

/// Decoding the fixed tail of the reverse name: ".in-addr.arpa".
proof fn lemma_decode_in_addr_arpa()
    ensures
        decode_labels(in_addr_arpa_labels(), 0) == seq![
            '.',
            'i',
            'n',
            '-',
            'a',
            'd',
            'd',
            'r',
            '.',
            'a',
            'r',
            'p',
            'a',
        ],
{
    let ia = seq![0x69u8, 0x6e, 0x2d, 0x61, 0x64, 0x64, 0x72];
    let ar = seq![0x61u8, 0x72, 0x70, 0x61];
    let tail = seq![4u8] + ar;
    assert(in_addr_arpa_labels() =~= seq![7u8] + (ia + tail));
    lemma_decode_label_start(7, ia + tail);
    lemma_decode_word_run(ia, tail);
    lemma_decode_label_start(4, ar);
    assert(tail =~= seq![4u8] + ar);
    assert(ar + Seq::<u8>::empty() =~= ar);
    lemma_decode_word_run(ar, Seq::<u8>::empty());
    assert(decode_labels(Seq::<u8>::empty(), 0) =~= Seq::<char>::empty());
    assert(chars_of(ar) =~= seq!['a', 'r', 'p', 'a']);
    assert(chars_of(ia) =~= seq!['i', 'n', '-', 'a', 'd', 'd', 'r']);
    assert(decode_labels(ar, 4) =~= seq!['a', 'r', 'p', 'a']);
    assert(decode_labels(ia + tail, 7) =~= seq!['i', 'n', '-', 'a', 'd', 'd', 'r', '.', 'a', 'r',
        'p', 'a']);
    assert(decode_labels(in_addr_arpa_labels(), 0) =~= seq!['.', 'i', 'n', '-', 'a', 'd', 'd', 'r',
        '.', 'a', 'r', 'p', 'a']);
}

/// The dotted form the reverse name decodes to: the octets' decimal
/// digits in reverse order, then "in-addr.arpa".
pub open spec fn reverse_dotted_name(ip: Ipv4Address) -> Seq<char> {
    chars_of(dec_digits(ip.3)) + seq!['.'] + chars_of(dec_digits(ip.2)) + seq!['.'] + chars_of(
        dec_digits(ip.1),
    ) + seq!['.'] + chars_of(dec_digits(ip.0)) + seq![
        '.',
        'i',
        'n',
        '-',
        'a',
        'd',
        'd',
        'r',
        '.',
        'a',
        'r',
        'p',
        'a',
    ]
}

/// The reverse-name encoding is a deterministic, reversible function of
/// the four octets: decoding the label sequence built for any IPv4 address
/// reproduces the octets' decimal forms in reverse order, followed by
/// "in-addr.arpa".
#[verifier::rlimit(50)]
pub proof fn lemma_reverse_name_roundtrip(ip: Ipv4Address)
    ensures
        decode_name(name_labels(ip)) == reverse_dotted_name(ip),
{
    let d0 = chars_of(dec_digits(ip.0));
    let d1 = chars_of(dec_digits(ip.1));
    let d2 = chars_of(dec_digits(ip.2));
    let d3 = chars_of(dec_digits(ip.3));
    let tail = seq!['.', 'i', 'n', '-', 'a', 'd', 'd', 'r', '.', 'a', 'r', 'p', 'a'];
    let t2 = label_of(ip.2) + (label_of(ip.1) + (label_of(ip.0) + in_addr_arpa_labels()));
    let t1 = label_of(ip.1) + (label_of(ip.0) + in_addr_arpa_labels());
    let t0 = label_of(ip.0) + in_addr_arpa_labels();

    lemma_decode_in_addr_arpa();
    lemma_decode_octet_then(ip.0, in_addr_arpa_labels());
    assert(decode_labels(t0, 0) =~= seq!['.'] + d0 + tail);
    lemma_decode_octet_then(ip.1, t0);
    assert(decode_labels(t1, 0) =~= seq!['.'] + d1 + (seq!['.'] + d0 + tail));
    lemma_decode_octet_then(ip.2, t1);
    assert(decode_labels(t2, 0) =~= seq!['.'] + d2 + (seq!['.'] + d1 + (seq!['.'] + d0 + tail)));
    assert(name_labels(ip) =~= label_of(ip.3) + t2);
    lemma_decode_octet_first(ip.3, t2);
    assert(decode_name(name_labels(ip)) =~= d3 + (seq!['.'] + d2 + (seq!['.'] + d1 + (seq!['.']
        + d0 + tail))));
    assert(d3 + (seq!['.'] + d2 + (seq!['.'] + d1 + (seq!['.'] + d0 + tail)))
        =~= reverse_dotted_name(ip));
}

/// A buffer that does not reach past the echoed request by more than the
/// mDNS minimum response size never parses: short responses are rejected
/// whole, never decoded partially.
pub proof fn lemma_short_mdns_response_rejected(buff: Seq<u8>, rl: int)
    requires
        buff.len() <= rl + MDNS_MIN_RESPONSE_SIZE,
    ensures
        !mdns_response_ok(buff, rl),
{
}

} // verus!
