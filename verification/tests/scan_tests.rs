use askhostname::addr::{expand_hosts, Ipv4Address};
use askhostname::errors::AppError;
use askhostname::nbns::NbnsAnswer;
use askhostname::scan::{
    merge_outcomes, scan_verdict, timeout_advice, validate_timeout_ms, QueryResult,
    TimeoutAdvice,
};

#[test]
fn silence_on_both_protocols_is_success() {
    let (result, verdict) = merge_outcomes(Ipv4Address(10, 0, 0, 1), Ok(None), Ok(None));
    assert!(result.is_empty());
    assert!(verdict.is_ok());
}

#[test]
fn answers_fill_the_result() {
    let answers = vec![NbnsAnswer::Unique(("HOST".to_string(), 0x20))];
    let (result, verdict) = merge_outcomes(
        Ipv4Address(10, 0, 0, 2),
        Ok(Some(answers)),
        Ok(Some("host.local".to_string())),
    );
    assert_eq!(result.ip_addr, Ipv4Address(10, 0, 0, 2));
    assert_eq!(result.host_names.len(), 1);
    assert!(matches!(&result.host_names[0], NbnsAnswer::Unique((n, _)) if n == "HOST"));
    assert_eq!(result.domain_name, "host.local");
    assert!(verdict.is_ok());
}

#[test]
fn single_failure_returns_that_error() {
    let (_, verdict) = merge_outcomes(
        Ipv4Address(10, 0, 0, 3),
        Err(AppError::InvalidResponseNbns),
        Ok(None),
    );
    assert!(matches!(verdict, Err(AppError::InvalidResponseNbns)));

    let (_, verdict) = merge_outcomes(
        Ipv4Address(10, 0, 0, 3),
        Ok(None),
        Err(AppError::InvalidResponseMdns),
    );
    assert!(matches!(verdict, Err(AppError::InvalidResponseMdns)));
}

#[test]
fn socket_failures_pass_through_the_merge() {
    let (_, verdict) = merge_outcomes(Ipv4Address(10, 0, 0, 5), Err(AppError::SocketCreate), Ok(None));
    assert!(matches!(verdict, Err(AppError::SocketCreate)));
    let (_, verdict) = merge_outcomes(Ipv4Address(10, 0, 0, 5), Ok(None), Err(AppError::SocketSend));
    assert!(matches!(verdict, Err(AppError::SocketSend)));
}

#[test]
fn two_failures_collapse_into_one() {
    let (result, verdict) = merge_outcomes(
        Ipv4Address(10, 0, 0, 4),
        Err(AppError::InvalidResponseNbns),
        Err(AppError::InvalidResponseMdns),
    );
    assert!(result.is_empty());
    assert!(matches!(verdict, Err(AppError::InvalidResponses)));
}

#[test]
fn empty_scan_of_a_quiet_block_is_no_failure() {
    // a /24 dispatches one unit per host address; none answering leaves
    // nothing to report and no scan error
    let hosts = expand_hosts(Ipv4Address(192, 168, 1, 0), 24);
    assert_eq!(hosts.len(), 254);
    let errors_recorded: usize = 0;
    assert!(scan_verdict(errors_recorded).is_ok());
}

#[test]
fn recorded_errors_make_the_scan_fail() {
    assert!(matches!(scan_verdict(1), Err(AppError::ScanError)));
    assert!(matches!(scan_verdict(7), Err(AppError::ScanError)));
}

#[test]
fn zero_timeout_is_rejected() {
    assert!(matches!(validate_timeout_ms(0), Err(AppError::SocketTimeout)));
    assert_eq!(validate_timeout_ms(500).unwrap(), 500);
}

#[test]
fn timeout_warnings() {
    assert_eq!(timeout_advice(0), TimeoutAdvice::TooLow);
    assert_eq!(timeout_advice(100), TimeoutAdvice::TooLow);
    assert_eq!(timeout_advice(101), TimeoutAdvice::Acceptable);
    assert_eq!(timeout_advice(500), TimeoutAdvice::Acceptable);
    assert_eq!(timeout_advice(3499), TimeoutAdvice::Acceptable);
    assert_eq!(timeout_advice(3500), TimeoutAdvice::TooBig);
    assert_eq!(timeout_advice(60000), TimeoutAdvice::TooBig);
}

#[test]
fn query_result_accumulates() {
    let mut r = QueryResult::new(Ipv4Address(172, 16, 0, 1));
    assert!(r.is_empty());
    r.push_hostname(NbnsAnswer::Group(("WORKGROUP".to_string(), 0x00)));
    assert!(!r.is_empty());
    r.set_domain_name("a.local".to_string());
    assert_eq!(r.host_names.len(), 1);
    assert_eq!(r.domain_name, "a.local");

    let mut just_domain = QueryResult::new(Ipv4Address(172, 16, 0, 2));
    just_domain.set_domain_name("b.local".to_string());
    assert!(!just_domain.is_empty());
}
