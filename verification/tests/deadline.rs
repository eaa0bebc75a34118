use grpc::metadata::MetadataMap;
use grpc::rpc::{RequestHeaders, Trailers};
use grpc::server::interceptor::deadline::{
    is_timeout_in_range, parse_grpc_timeout, DeadlineEvent, DeadlineInterceptor, DeadlinePlan,
};
use grpc::status::StatusCodeError;
use std::time::Duration;

#[test]
fn parse_hours() {
    assert_eq!(parse_grpc_timeout("1H"), Some(Duration::from_secs(3600)));
    assert_eq!(parse_grpc_timeout("2H"), Some(Duration::from_secs(7200)));
}

#[test]
fn parse_minutes() {
    assert_eq!(parse_grpc_timeout("5M"), Some(Duration::from_secs(300)));
}

#[test]
fn parse_seconds() {
    assert_eq!(parse_grpc_timeout("30S"), Some(Duration::from_secs(30)));
}

#[test]
fn parse_milliseconds() {
    assert_eq!(parse_grpc_timeout("100m"), Some(Duration::from_millis(100)));
    assert_eq!(parse_grpc_timeout("0m"), Some(Duration::from_millis(0)));
}

#[test]
fn parse_microseconds() {
    assert_eq!(parse_grpc_timeout("500u"), Some(Duration::from_micros(500)));
}

#[test]
fn parse_nanoseconds() {
    assert_eq!(parse_grpc_timeout("1000000n"), Some(Duration::from_nanos(1_000_000)));
}

#[test]
fn parse_empty_returns_none() {
    assert_eq!(parse_grpc_timeout(""), None);
}

#[test]
fn parse_invalid_unit_returns_none() {
    assert_eq!(parse_grpc_timeout("100x"), None);
}

#[test]
fn parse_invalid_value_returns_none() {
    assert_eq!(parse_grpc_timeout("abcS"), None);
}

#[test]
fn parse_single_digit() {
    assert_eq!(parse_grpc_timeout("5S"), Some(Duration::from_secs(5)));
}

#[test]
fn parse_odd_values() {
    assert_eq!(parse_grpc_timeout("+5S"), Some(Duration::from_secs(5)));
    assert_eq!(parse_grpc_timeout("S"), None);
    assert_eq!(parse_grpc_timeout("+S"), None);
    assert_eq!(parse_grpc_timeout("-5S"), None);
    assert_eq!(parse_grpc_timeout("18446744073709551616n"), None);
    assert_eq!(
        parse_grpc_timeout("18446744073709551615n"),
        Some(Duration::from_nanos(18446744073709551615))
    );
    assert_eq!(parse_grpc_timeout("1500m"), Some(Duration::from_micros(1_500_000)));
}

#[test]
fn out_of_range_timeouts_are_told() {
    assert!(is_timeout_in_range(""));
    assert!(is_timeout_in_range("5S"));
    assert!(!is_timeout_in_range("18446744073709551615H"));
    assert!(!is_timeout_in_range("18446744073709551615M"));
    assert!(is_timeout_in_range("18446744073709551615S"));
    assert!(is_timeout_in_range("5\u{b5}"));
    assert_eq!(parse_grpc_timeout("5\u{b5}"), None);
}

fn headers_with_timeout(timeout: &str) -> RequestHeaders {
    let mut m = MetadataMap::new();
    m.insert("grpc-timeout", timeout);
    RequestHeaders::new().with_method_name("/test/Method").with_metadata(m)
}

#[test]
fn no_timeout_header_passes_through() {
    let interceptor = DeadlineInterceptor::new(());
    let headers = RequestHeaders::new().with_method_name("/test/Method");
    assert!(matches!(interceptor.plan(&headers), DeadlinePlan::PassThrough));
    assert!(matches!(
        interceptor.plan(&headers_with_timeout("soon")),
        DeadlinePlan::PassThrough
    ));
}

#[test]
fn handler_completes_before_timeout() {
    let interceptor = DeadlineInterceptor::new(());
    match interceptor.plan(&headers_with_timeout("10S")) {
        DeadlinePlan::Race(d) => assert_eq!(d, Duration::from_secs(10)),
        DeadlinePlan::PassThrough => panic!("expected a race"),
    }
    let trailers = interceptor.finish(DeadlineEvent::HandlerDone(Trailers::new(Ok(()))));
    assert!(trailers.status().is_ok());
}

#[test]
fn handler_exceeds_timeout_returns_deadline_exceeded() {
    let interceptor = DeadlineInterceptor::new(());
    match interceptor.plan(&headers_with_timeout("10m")) {
        DeadlinePlan::Race(d) => assert_eq!(d, Duration::from_millis(10)),
        DeadlinePlan::PassThrough => panic!("expected a race"),
    }
    let trailers = interceptor.finish(DeadlineEvent::TimerFired);
    let err = trailers.status().as_ref().unwrap_err();
    assert_eq!(err.code(), StatusCodeError::DeadlineExceeded);
    assert!(err.message().contains("deadline exceeded"));
}
