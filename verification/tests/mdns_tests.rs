use askhostname::addr::Ipv4Address;
use askhostname::errors::AppError;
use askhostname::mdns::MdnsQuery;

/// A response buffer: `request_len` echoed bytes, ten fixed bytes, the
/// declared answer size, then the rdata, padded with zeros to `total`.
fn response(request_len: usize, answer_size: u16, rdata: &[u8], total: usize) -> Vec<u8> {
    let mut buf = vec![0u8; request_len + 10];
    buf.push((answer_size >> 8) as u8);
    buf.push(answer_size as u8);
    buf.extend_from_slice(rdata);
    while buf.len() < total {
        buf.push(0);
    }
    buf
}

#[test]
fn loopback_reverse_name_labels() {
    let packet = MdnsQuery::build_query(Ipv4Address(127, 0, 0, 1));
    // header: zero transaction id and flags, one question
    assert_eq!(&packet[0..12], &[0, 0, 0, 0, 0, 1, 0, 0, 0, 0, 0, 0]);
    // the reverse name: 1.0.0.127.in-addr.arpa as length-prefixed labels
    let expected: &[u8] = &[
        1, b'1', 1, b'0', 1, b'0', 3, b'1', b'2', b'7', 7, b'i', b'n', b'-', b'a', b'd', b'd',
        b'r', 4, b'a', b'r', b'p', b'a', 0,
    ];
    assert_eq!(&packet[12..12 + expected.len()], expected);
    // qtype PTR, qclass IN
    let n = packet.len();
    assert_eq!(&packet[n - 4..], &[0x00, 0x0c, 0x00, 0x01]);
    assert_eq!(n, 40);
}

#[test]
fn query_length_follows_digit_counts() {
    // header + sum of (digits + 1) per octet + in-addr + arpa + nul + type and class
    let cases: &[(Ipv4Address, usize)] = &[
        (Ipv4Address(127, 0, 0, 1), 12 + (3 + 1) + (1 + 1) + (1 + 1) + (1 + 1) + 1 + 7 + 1 + 4 + 1 + 4),
        (Ipv4Address(192, 168, 1, 50), 12 + (3 + 1) + (3 + 1) + (1 + 1) + (2 + 1) + 1 + 7 + 1 + 4 + 1 + 4),
        (Ipv4Address(9, 9, 9, 9), 12 + 4 * (1 + 1) + 1 + 7 + 1 + 4 + 1 + 4),
        (Ipv4Address(255, 255, 255, 255), 12 + 4 * (3 + 1) + 1 + 7 + 1 + 4 + 1 + 4),
    ];
    for (ip, want) in cases {
        assert_eq!(MdnsQuery::build_query(*ip).len(), *want);
    }
}

#[test]
fn parses_a_local_name() {
    // rdata: the name myhost.local as labels, null-terminated
    let rdata: &[u8] = &[
        6, b'm', b'y', b'h', b'o', b's', b't', 5, b'l', b'o', b'c', b'a', b'l', 0,
    ];
    let buf = response(40, rdata.len() as u16, rdata, 100);
    let name = MdnsQuery::parse_response(&buf, 40).unwrap();
    assert_eq!(name, "myhost.local");
}

#[test]
fn decodes_the_reverse_name_it_built() {
    // feed the query's own label sequence back as an answer: decoding must
    // reproduce the reversed octets and the fixed suffix
    let packet = MdnsQuery::build_query(Ipv4Address(192, 168, 100, 8));
    let rdata = &packet[12..packet.len() - 4];
    let buf = response(40, rdata.len() as u16, rdata, 120);
    let name = MdnsQuery::parse_response(&buf, 40).unwrap();
    assert_eq!(name, "8.100.168.192.in-addr.arpa");
}

#[test]
fn mdns_short_response_is_rejected() {
    let buf = vec![0u8; 58];
    assert!(matches!(
        MdnsQuery::parse_response(&buf, 40),
        Err(AppError::InvalidResponseMdns)
    ));
}

#[test]
fn tiny_declared_answer_is_rejected() {
    let buf = response(40, 1, &[0u8; 20], 100);
    assert!(matches!(
        MdnsQuery::parse_response(&buf, 40),
        Err(AppError::InvalidResponseMdns)
    ));
}

#[test]
fn non_printable_label_bytes_are_dropped() {
    let rdata: &[u8] = &[4, b'a', 0x01, b'b', 0x02, 5, b'l', b'o', b'c', b'a', b'l', 0];
    let buf = response(40, rdata.len() as u16, rdata, 100);
    let name = MdnsQuery::parse_response(&buf, 40).unwrap();
    assert_eq!(name, "ab.local");
}

#[test]
fn mdns_absent_reply_is_no_error() {
    let r = MdnsQuery::evaluate_reply(Ok(None), 40);
    assert!(matches!(r, Ok(None)));
}

#[test]
fn mdns_transport_error_passes_through() {
    let r = MdnsQuery::evaluate_reply(Err(AppError::SocketConnect), 40);
    assert!(matches!(r, Err(AppError::SocketConnect)));
}

#[test]
fn mdns_received_reply_is_parsed() {
    let rdata: &[u8] = &[4, b'h', b'o', b's', b't', 5, b'l', b'o', b'c', b'a', b'l', 0];
    let buf = response(40, rdata.len() as u16, rdata, 100);
    let r = MdnsQuery::evaluate_reply(Ok(Some(buf)), 40);
    assert_eq!(r.unwrap().unwrap(), "host.local");
}
