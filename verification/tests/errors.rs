use dns_forwarder::errors::{decimal_string, DnsError};
use dns_forwarder::message::header::Header;
use dns_forwarder::message::rr;

#[test]
fn numbers_are_written_in_decimal() {
    assert_eq!(decimal_string(0), "0");
    assert_eq!(decimal_string(7), "7");
    assert_eq!(decimal_string(10), "10");
    assert_eq!(decimal_string(1234567890), "1234567890");
    assert_eq!(decimal_string(usize::MAX), usize::MAX.to_string());
}

#[test]
fn errors_say_what_went_wrong() {
    assert_eq!(
        DnsError::BufLenNotEq { exp: 12, act: 11 }.to_string(),
        "Buffer length is not equal to expected size: expected 12 bytes, got 11"
    );
    assert_eq!(
        DnsError::BufLenSmall { min: 105, act: 0 }.to_string(),
        "Buffer length is not big enough: expected at least 105 bytes, got 0"
    );
    assert_eq!(
        DnsError::InvalidEncoding { at: 11 }.to_string(),
        "Invalid domain encoding discovered at byte 11"
    );
    assert_eq!(
        DnsError::ResolverNotSpecified.to_string(),
        "Resolver address is not specified or specifed incorrectly. Usage: `run_server -r|--resolver <address>`"
    );
    assert_eq!(
        DnsError::ResolverNoAnsw.to_string(),
        "No answer received from DNS resolver, but it promised exactly 1 answer"
    );
    assert_eq!(
        DnsError::ResolverNoRecv.to_string(),
        "Failed to forward message to the DNS resolver, 0 bytes was sent"
    );
    assert_eq!(DnsError::BufferTooSmall.to_string(), "BufferTooSmall");
    assert_eq!(DnsError::InvalidValue.to_string(), "InvalidValue");
    assert_eq!(
        DnsError::Unsupported(rr::Error::UnsupportedType(28)).to_string(),
        "Unsupported type 28"
    );
    assert_eq!(
        DnsError::Unsupported(rr::Error::UnsupportedClass(0x0101)).to_string(),
        "Unsupported class 257"
    );
    assert_eq!(rr::Error::UnsupportedType(0).to_string(), "Unsupported type 0");
    assert_eq!(rr::Error::UnsupportedClass(65535).to_string(), "Unsupported class 65535");
}

#[test]
fn resolver_failure_shows_the_header() {
    let header = Header { id: 4711, ancount: 0, ..Header::default() };
    let text = DnsError::ResolverFailed(header).to_string();
    assert_eq!(
        text,
        format!(
            "Invalid message received from DNS resolver, expected 1 answer, got: {:?}",
            header
        )
    );
    assert!(text.contains("Header {"));
    assert!(text.contains("id: 4711"));
}
