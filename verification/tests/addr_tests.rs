use askhostname::addr::{expand_hosts, parse_target, Ipv4Address, ScanTarget};
use askhostname::errors::AppError;

#[test]
fn parses_single_address() {
    let r = parse_target("127.0.0.1");
    assert!(matches!(r, Ok(ScanTarget::Single(Ipv4Address(127, 0, 0, 1)))));
}

#[test]
fn parses_range() {
    let r = parse_target("192.168.1.0/24");
    assert!(matches!(r, Ok(ScanTarget::Range(Ipv4Address(192, 168, 1, 0), 24))));
}

#[test]
fn parses_range_with_host_bits() {
    let r = parse_target("10.0.0.7/8");
    assert!(matches!(r, Ok(ScanTarget::Range(Ipv4Address(10, 0, 0, 7), 8))));
}

#[test]
fn rejects_ipv6_address() {
    assert!(matches!(parse_target("::1"), Err(AppError::Ipv6)));
    assert!(matches!(parse_target("fe80::aabb:ccff:fe00:1122"), Err(AppError::Ipv6)));
    assert!(matches!(parse_target("::"), Err(AppError::Ipv6)));
    assert!(matches!(parse_target("1:2:3:4:5:6:7:8"), Err(AppError::Ipv6)));
    assert!(matches!(parse_target("1:2:3:4:5:6:7::"), Err(AppError::Ipv6)));
    assert!(matches!(parse_target("::ffff:192.168.1.1"), Err(AppError::Ipv6)));
}

#[test]
fn colon_text_that_is_no_address_is_a_parse_failure() {
    // a colon alone does not make text an IPv6 literal
    assert!(matches!(parse_target("ab:cd"), Err(AppError::ParseAddress)));
    assert!(matches!(parse_target(":::"), Err(AppError::ParseAddress)));
    assert!(matches!(parse_target("1::2::3"), Err(AppError::ParseAddress)));
    assert!(matches!(parse_target("1:2:3:4:5:6:7:8:9"), Err(AppError::ParseAddress)));
    assert!(matches!(parse_target("12345::"), Err(AppError::ParseAddress)));
    assert!(matches!(parse_target("1:2:3:4:5:6:7:"), Err(AppError::ParseAddress)));
    assert!(matches!(parse_target("a:b/24"), Err(AppError::ParseAddressesRange)));
}

#[test]
fn rejects_ipv6_range() {
    assert!(matches!(parse_target("fe80::/64"), Err(AppError::Ipv6)));
    assert!(matches!(parse_target("::1/128"), Err(AppError::Ipv6)));
    assert!(matches!(parse_target("fe80::/200"), Err(AppError::ParseAddressesRange)));
}

#[test]
fn rejects_malformed_address() {
    assert!(matches!(parse_target(""), Err(AppError::ParseAddress)));
    assert!(matches!(parse_target("notanip"), Err(AppError::ParseAddress)));
    assert!(matches!(parse_target("1.2.3"), Err(AppError::ParseAddress)));
    assert!(matches!(parse_target("1.2.3.4.5"), Err(AppError::ParseAddress)));
    assert!(matches!(parse_target("1.2.3.256"), Err(AppError::ParseAddress)));
    assert!(matches!(parse_target("01.2.3.4"), Err(AppError::ParseAddress)));
    assert!(matches!(parse_target("1..2.3"), Err(AppError::ParseAddress)));
}

#[test]
fn rejects_malformed_range() {
    assert!(matches!(parse_target("192.168.1.0/33"), Err(AppError::ParseAddressesRange)));
    assert!(matches!(parse_target("192.168.1.0/"), Err(AppError::ParseAddressesRange)));
    assert!(matches!(parse_target("192.168.1.0/2x"), Err(AppError::ParseAddressesRange)));
    assert!(matches!(parse_target("192.168.1.256/24"), Err(AppError::ParseAddressesRange)));
    assert!(matches!(parse_target("abc/24"), Err(AppError::ParseAddressesRange)));
}

#[test]
fn expands_a_slash_24_into_254_hosts() {
    let hosts = expand_hosts(Ipv4Address(192, 168, 1, 0), 24);
    assert_eq!(hosts.len(), 254);
    assert_eq!(hosts[0], Ipv4Address(192, 168, 1, 1));
    assert_eq!(hosts[253], Ipv4Address(192, 168, 1, 254));
}

#[test]
fn expands_ignore_host_bits() {
    let hosts = expand_hosts(Ipv4Address(192, 168, 1, 77), 24);
    assert_eq!(hosts.len(), 254);
    assert_eq!(hosts[0], Ipv4Address(192, 168, 1, 1));
}

#[test]
fn expands_small_blocks() {
    let hosts30 = expand_hosts(Ipv4Address(10, 0, 0, 0), 30);
    assert_eq!(hosts30.len(), 2);
    assert_eq!(hosts30[0], Ipv4Address(10, 0, 0, 1));
    assert_eq!(hosts30[1], Ipv4Address(10, 0, 0, 2));

    let hosts31 = expand_hosts(Ipv4Address(10, 0, 0, 0), 31);
    assert_eq!(hosts31.len(), 2);
    assert_eq!(hosts31[0], Ipv4Address(10, 0, 0, 0));
    assert_eq!(hosts31[1], Ipv4Address(10, 0, 0, 1));

    let hosts32 = expand_hosts(Ipv4Address(10, 1, 2, 3), 32);
    assert_eq!(hosts32.len(), 1);
    assert_eq!(hosts32[0], Ipv4Address(10, 1, 2, 3));
}

#[test]
fn expands_across_octet_boundary() {
    let hosts = expand_hosts(Ipv4Address(10, 0, 0, 0), 23);
    assert_eq!(hosts.len(), 510);
    assert_eq!(hosts[254], Ipv4Address(10, 0, 0, 255));
    assert_eq!(hosts[255], Ipv4Address(10, 0, 1, 0));
}

#[test]
fn numeric_value_roundtrip() {
    let a = Ipv4Address(192, 168, 1, 50);
    assert_eq!(a.to_u32(), 0xc0a80132);
    assert_eq!(Ipv4Address::from_u32(0xc0a80132), a);
}
