use askhostname::errors::AppError;
use askhostname::nbns::{
    classify_name_flags, MacAddress, NbnsAnswer, NbnsQuery, NBNS_QUERY_SIZE,
};

/// A response buffer: `request_len` echoed bytes, four time-to-live bytes,
/// the declared data size and name count, then the given payload, padded
/// with zeros to `total`.
fn response(request_len: usize, data_size: u16, names_count: u8, payload: &[u8], total: usize) -> Vec<u8> {
    let mut buf = vec![0u8; request_len + 4];
    buf.push((data_size >> 8) as u8);
    buf.push(data_size as u8);
    buf.push(names_count);
    buf.extend_from_slice(payload);
    while buf.len() < total {
        buf.push(0);
    }
    buf
}

fn record(name: &[u8], service: u8, flags: u8) -> Vec<u8> {
    let mut chunk = vec![0x20u8; 15];
    chunk[..name.len()].copy_from_slice(name);
    chunk.push(service);
    chunk.push(flags);
    chunk.push(0);
    chunk
}

#[test]
fn query_has_fixed_size() {
    let q = NbnsQuery::new();
    let packet = q.to_packet();
    assert_eq!(packet.len(), NBNS_QUERY_SIZE);
    assert_eq!(packet.len(), 50);
}

#[test]
fn query_bytes_after_transaction_id_are_fixed() {
    let packet = NbnsQuery::new().to_packet();
    // flags and counts: one question, nothing else
    assert_eq!(&packet[2..12], &[0, 0, 0, 1, 0, 0, 0, 0, 0, 0]);
    // the wildcard question name
    assert_eq!(packet[12], 0x20);
    assert_eq!(packet[13], 0x43);
    assert_eq!(packet[14], 0x4b);
    for i in 15..45 {
        assert_eq!(packet[i], 0x41);
    }
    assert_eq!(packet[45], 0);
    // qtype NBSTAT, qclass IN
    assert_eq!(&packet[46..50], &[0x00, 0x21, 0x00, 0x01]);
}

#[test]
fn parses_one_name_and_mac() {
    let mut payload = record(b"SERVER1", 0x00, 0x00);
    payload.extend_from_slice(&[0xaa, 0xbb, 0xcc, 0xdd, 0xee, 0xff]);
    let buf = response(50, 24, 1, &payload, 100);
    let answers = NbnsQuery::parse_response(&buf, 50).unwrap();
    assert_eq!(answers.len(), 2);
    match &answers[0] {
        NbnsAnswer::Unique((name, service)) => {
            assert_eq!(name, "SERVER1");
            assert_eq!(*service, 0x00);
        },
        other => panic!("expected a unique name, got {:?}", other),
    }
    match &answers[1] {
        NbnsAnswer::Mac(MacAddress(a, b, c, d, e, f)) => {
            assert_eq!((*a, *b, *c, *d, *e, *f), (0xaa, 0xbb, 0xcc, 0xdd, 0xee, 0xff));
        },
        other => panic!("expected a hardware address, got {:?}", other),
    }
}

#[test]
fn parses_all_flag_classes() {
    let mut payload = Vec::new();
    payload.extend_from_slice(&record(b"PG", 0x20, 0x82));
    payload.extend_from_slice(&record(b"PERM", 0x20, 0x02));
    payload.extend_from_slice(&record(b"GROUP", 0x20, 0x80));
    payload.extend_from_slice(&record(b"UNIQ", 0x20, 0x00));
    let buf = response(50, 72, 4, &payload, 160);
    let answers = NbnsQuery::parse_response(&buf, 50).unwrap();
    assert!(matches!(&answers[0], NbnsAnswer::PermanentGroup((n, _)) if n == "PG"));
    assert!(matches!(&answers[1], NbnsAnswer::Permanent((n, _)) if n == "PERM"));
    assert!(matches!(&answers[2], NbnsAnswer::Group((n, _)) if n == "GROUP"));
    assert!(matches!(&answers[3], NbnsAnswer::Unique((n, _)) if n == "UNIQ"));
}

#[test]
fn both_flag_bits_classify_as_permanent_group() {
    let a = classify_name_flags("HOST".to_string(), 0x20, 0x82);
    assert!(matches!(a, NbnsAnswer::PermanentGroup(_)));
    // every flag byte with both bits set, whatever else it carries
    let b = classify_name_flags("HOST".to_string(), 0x20, 0xff);
    assert!(matches!(b, NbnsAnswer::PermanentGroup(_)));
}

#[test]
fn non_printable_name_bytes_are_dropped() {
    let mut name = vec![0x01u8, 0x02];
    name.extend_from_slice(b"AB");
    let payload = record(&name, 0x00, 0x00);
    let buf = response(50, 18, 1, &payload, 100);
    let answers = NbnsQuery::parse_response(&buf, 50).unwrap();
    match &answers[0] {
        NbnsAnswer::Unique((n, _)) => assert_eq!(n, "AB"),
        other => panic!("expected a unique name, got {:?}", other),
    }
}

#[test]
fn nbns_short_response_is_rejected() {
    // not past the echoed request plus the minimum
    let buf = vec![0u8; 82];
    assert!(matches!(
        NbnsQuery::parse_response(&buf, 50),
        Err(AppError::InvalidResponseNbns)
    ));
}

#[test]
fn truncated_name_records_are_rejected() {
    // declared count of 2 but data for only one 18-byte chunk
    let payload = record(b"ONLYONE", 0x00, 0x00);
    let buf = response(50, 18, 2, &payload, 100);
    assert!(matches!(
        NbnsQuery::parse_response(&buf, 50),
        Err(AppError::InvalidResponseNbns)
    ));
}

#[test]
fn data_past_buffer_end_is_rejected() {
    // declared data size larger than what the buffer holds
    let payload = record(b"NAME", 0x00, 0x00);
    let buf = response(50, 1000, 2, &payload, 100);
    assert!(matches!(
        NbnsQuery::parse_response(&buf, 50),
        Err(AppError::InvalidResponseNbns)
    ));
}

#[test]
fn zero_names_is_rejected() {
    let buf = response(50, 24, 0, &[0u8; 30], 100);
    assert!(matches!(
        NbnsQuery::parse_response(&buf, 50),
        Err(AppError::InvalidResponseNbns)
    ));
}

#[test]
fn mac_address_needs_six_bytes() {
    assert!(MacAddress::from_bytes(&[1, 2, 3, 4, 5]).is_none());
    assert!(MacAddress::from_bytes(&[1, 2, 3, 4, 5, 6, 7]).is_none());
    let m = MacAddress::from_bytes(&[1, 2, 3, 4, 5, 6]).unwrap();
    assert!(matches!(m, MacAddress(1, 2, 3, 4, 5, 6)));
}

#[test]
fn nbns_absent_reply_is_no_error() {
    let r = NbnsQuery::evaluate_reply(Ok(None), 50);
    assert!(matches!(r, Ok(None)));
}

#[test]
fn nbns_transport_error_passes_through() {
    let r = NbnsQuery::evaluate_reply(Err(AppError::SocketSend), 50);
    assert!(matches!(r, Err(AppError::SocketSend)));
}

#[test]
fn nbns_received_reply_is_parsed() {
    let mut payload = record(b"HOST", 0x00, 0x00);
    payload.extend_from_slice(&[1, 2, 3, 4, 5, 6]);
    let buf = response(50, 24, 1, &payload, 100);
    let r = NbnsQuery::evaluate_reply(Ok(Some(buf)), 50);
    let answers = r.unwrap().unwrap();
    assert_eq!(answers.len(), 2);
    assert!(matches!(&answers[0], NbnsAnswer::Unique((n, _)) if n == "HOST"));
}
