use mirrord_steal::http::{is_http, valid_http1_length, valid_http1_request, HttpError};
use mirrord_steal::probe::{
    accepts_as_http1, common_prefix_agrees, h2_preface_bytes, HeadParse, HttpVersion, ParseError,
};
use mirrord_steal::traffic::check_http;

const MINIMAL_HTTP1_REQUEST: &str = "GET / HTTP/1.1";

const HTTP1_SAMPLE: &str =
    "GET / HTTP/1.1\r\nHost: localhost:30000\r\nUser-Agent: curl/7.68.0\r\nAccept: */*\r\n\r\n";

const HTTP1_BIG_REQUEST: &str = "POST / HTTP/1.1\r\nHost: localhost:30000\r\nUser-Agent: curl/7.68.0\r\nAccept: */*\r\nContent-Length: 1975\r\nContent-Type: application/x-www-form-urlencoded\r\nExpect: 100-continue\r\n\r\n";

#[test]
fn it_works() {}

#[test]
fn test_valid_http1_request_minimal() {
    assert!(valid_http1_request(MINIMAL_HTTP1_REQUEST.as_bytes()).is_ok());
}

#[test]
fn test_valid_http1_request_sample() {
    assert!(valid_http1_request(HTTP1_SAMPLE.as_bytes()).is_ok());
}

#[test]
fn test_valid_http1_request_big() {
    assert!(valid_http1_request(HTTP1_BIG_REQUEST.as_bytes()).is_ok());
}

#[test]
fn panic_on_invalid_http1_request_empty() {
    assert!(valid_http1_request("".as_bytes()).is_err());
    assert_eq!(valid_http1_request("".as_bytes()), Err(HttpError::Empty));
}

#[test]
fn panic_on_invalid_http1_request_prose() {
    let request = "I am not an HTTP/1 request, so this should not work!".as_bytes();
    assert!(valid_http1_request(request).is_err());
    assert!(matches!(valid_http1_request(request), Err(HttpError::Parse(_))));
}

#[test]
fn panic_on_invalid_http1_request_cut_version() {
    assert!(valid_http1_request("GET / HTTP".as_bytes()).is_err());
    assert_eq!(valid_http1_request("GET / HTTP".as_bytes()), Err(HttpError::TooSmall));
}

#[test]
fn panic_on_invalid_http1_request_method_only() {
    assert!(valid_http1_request("GET".as_bytes()).is_err());
    assert_eq!(valid_http1_request("GET".as_bytes()), Err(HttpError::TooSmall));
}

#[test]
fn length_verdicts() {
    assert_eq!(valid_http1_length(0), Err(HttpError::Empty));
    assert_eq!(valid_http1_length(1), Err(HttpError::TooSmall));
    assert_eq!(valid_http1_length(13), Err(HttpError::TooSmall));
    assert_eq!(valid_http1_length(14), Ok(()));
    assert_eq!(valid_http1_length(64), Ok(()));
}

#[test]
fn preface_is_http2() {
    let preface = h2_preface_bytes();
    assert_eq!(&preface, b"PRI * HTTP/2.0");
    assert_eq!(HttpVersion::new(b"PRI * HTTP/2.0", &preface), HttpVersion::V2);
    assert_eq!(HttpVersion::detect(b"PRI * HTTP/2.0"), HttpVersion::V2);
}

#[test]
fn full_client_preface_is_http2() {
    assert_eq!(HttpVersion::detect(b"PRI * HTTP/2.0\r\n\r\nSM\r\n\r\n"), HttpVersion::V2);
}

#[test]
fn short_buffer_is_held_against_the_cut_preface() {
    assert_eq!(HttpVersion::detect(b"P"), HttpVersion::V2);
    assert_eq!(HttpVersion::detect(b"PRI"), HttpVersion::V2);
    assert_eq!(HttpVersion::detect(b"PRI * HT"), HttpVersion::V2);
    assert_ne!(HttpVersion::detect(b"PRX"), HttpVersion::V2);
}

#[test]
fn request_lines_are_http1() {
    assert_eq!(HttpVersion::detect(b"GET / HTTP/1.1\r\n\r\n"), HttpVersion::V1);
    assert_eq!(HttpVersion::detect(b"GET / HTTP/1.1\r\nHost: localhost\r\n\r\n"), HttpVersion::V1);
    assert_eq!(HttpVersion::detect(b"POST /upload HT"), HttpVersion::V1);
    assert_eq!(HttpVersion::detect(b"GET"), HttpVersion::V1);
    assert_eq!(HttpVersion::detect(HTTP1_BIG_REQUEST[..64].as_bytes()), HttpVersion::V1);
}

#[test]
fn other_bytes_are_not_http() {
    assert_eq!(HttpVersion::detect(b"\x00\x01\x02\x03"), HttpVersion::NotHttp);
    assert_eq!(HttpVersion::detect(b"\x16\x03\x01\x02\x00\x01"), HttpVersion::NotHttp);
    assert_eq!(HttpVersion::detect(b"GET / HTTP/3.0\r\n"), HttpVersion::NotHttp);
}

#[test]
fn a_prefix_of_http_may_be_misread() {
    // Best effort: anything that starts like a request line passes.
    assert_eq!(HttpVersion::detect(b"GET not really http"), HttpVersion::NotHttp);
    assert_eq!(HttpVersion::detect(b"GET somewhere "), HttpVersion::V1);
}

#[test]
fn observations_decide_the_version() {
    assert_eq!(HttpVersion::from_observations(true, HeadParse::Partial), HttpVersion::V2);
    assert_eq!(
        HttpVersion::from_observations(true, HeadParse::Invalid(ParseError::Token)),
        HttpVersion::V2
    );
    assert_eq!(HttpVersion::from_observations(false, HeadParse::Complete(18)), HttpVersion::V1);
    assert_eq!(HttpVersion::from_observations(false, HeadParse::Partial), HttpVersion::V1);
    assert_eq!(
        HttpVersion::from_observations(false, HeadParse::Invalid(ParseError::TooManyHeaders)),
        HttpVersion::V1
    );
    assert_eq!(
        HttpVersion::from_observations(false, HeadParse::Invalid(ParseError::Version)),
        HttpVersion::NotHttp
    );
    assert!(accepts_as_http1(HeadParse::Complete(0)));
    assert!(!accepts_as_http1(HeadParse::Invalid(ParseError::NewLine)));
}

#[test]
fn default_version_is_http1() {
    assert_eq!(HttpVersion::default(), HttpVersion::V1);
    assert!(HttpVersion::V1.is_filtered());
    assert!(!HttpVersion::V2.is_filtered());
    assert!(!HttpVersion::NotHttp.is_filtered());
}

#[test]
fn common_prefixes() {
    assert!(common_prefix_agrees(b"", b"abc"));
    assert!(common_prefix_agrees(b"ab", b"abc"));
    assert!(common_prefix_agrees(b"abcd", b"abc"));
    assert!(!common_prefix_agrees(b"abd", b"abc"));
    assert!(!common_prefix_agrees(b"x", b"abc"));
}

#[test]
fn is_http_waits_for_enough_bytes() {
    assert_eq!(is_http(b""), Some(false));
    assert_eq!(is_http(b"GET /"), None);
    assert_eq!(is_http(b"GET / HTTP/1.1\r\n"), Some(true));
    assert_eq!(is_http(b"PRI * HTTP/2.0\r\n\r\nSM\r\n\r\n"), Some(true));
    assert_eq!(is_http(b"\x00\x01\x02\x03\x04\x05\x06\x07\x08\x09\x0a\x0b\x0c\x0d\x0e"), Some(false));
}

#[test]
fn check_http_accepts_both_versions() {
    let preface = h2_preface_bytes();
    assert!(check_http(b"GET / HTTP/1.1\r\n\r\n", &preface).is_ok());
    assert!(check_http(b"PRI * HTTP/2.0", &preface).is_ok());
    assert_eq!(
        check_http(b"\x00\x01\x02\x03", &preface),
        Err(mirrord_steal::traffic::HttpError::NotHttp)
    );
}
