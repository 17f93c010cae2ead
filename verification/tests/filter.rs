use mirrord_steal::filter::{
    bytes_are_text, header_line, header_lines, pattern_is_accepted, pattern_is_plain,
    verdict_accepts, HeaderFilter,
};
use mirrord_steal::pattern::{bytes_are_plain, MAX_PATTERN_LEN};
use mirrord_steal::http::HttpHeaderSelect;
use mirrord_steal::http_filter::{
    is_framing_header, strip_framing_headers, HandlerDecision, HttpFilter, HttpFilterBuilder,
    HttpTrafficError, HyperHandler, MatchedHttpRequest, StolenConnection, MAX_BODY_SIZE,
};
use mirrord_steal::http_traffic::{first_accepted, HttpFilterManager};
use mirrord_steal::probe::HttpVersion;
use mirrord_steal::protocol::{
    HttpHeader, HttpProtocol, InternalHttpRequest, InternalHttpResponse, IpAddress, RegexFilter,
    SocketAddress,
};
use mirrord_steal::traffic::EnterpriseTrafficManager;

fn header(name: &str, value: &str) -> HttpHeader {
    HttpHeader { name: name.as_bytes().to_vec(), value: value.as_bytes().to_vec() }
}

fn get(headers: Vec<HttpHeader>) -> InternalHttpRequest {
    InternalHttpRequest {
        method: "GET".to_string(),
        uri: "/".to_string(),
        headers,
        version: HttpProtocol::Http11,
        body: Vec::new(),
    }
}

fn origin() -> SocketAddress {
    SocketAddress { ip: IpAddress::V4(0x0a00_0005), port: 7777 }
}

fn filter(pattern: &str) -> HeaderFilter {
    HeaderFilter::new(pattern).unwrap()
}

#[test]
fn filters_are_regular_expressions() {
    assert!(HeaderFilter::new("Hello").is_some());
    assert!(HeaderFilter::new("Id: token.*").is_some());
    assert!(HeaderFilter::new("(").is_none());
    assert!(HeaderFilter::new("[a-").is_none());
    assert_eq!(filter("^x-(a|b)$").as_str(), "^x-(a|b)$");
}

#[test]
fn a_filter_searches_the_line() {
    let hello = filter("Hello");
    assert!(hello.is_match("mirrord-test: Hello"));
    assert!(!hello.is_match("mirrord-test: World"));
    assert!(!hello.is_match("mirrord-test: hello"));
    let anchored = filter("^id: token[0-9]+$");
    assert!(anchored.is_match("id: token42"));
    assert!(!anchored.is_match("x-id: token42"));
    let insensitive = filter("(?i)^id: TOKEN");
    assert!(insensitive.is_match("id: token42"));
    assert!(insensitive.is_match("ID: Token42"));
    let optional = filter("(v1/)?(items|orders)$");
    assert!(optional.is_match("path: /v1/items"));
    assert!(optional.is_match("path: /orders"));
    assert!(!optional.is_match("path: /users"));
    let uuid = filter("^id: [0-9a-f]{8}-[0-9a-f]{4}-[0-9a-f]{4}-[0-9a-f]{4}-[0-9a-f]{12}$");
    assert!(uuid.is_match("id: 123e4567-e89b-12d3-a456-426614174000"));
    assert!(!uuid.is_match("id: 123e4567-e89b-12d3-a456-42661417400"));
}

#[test]
fn only_plain_patterns_are_filters() {
    // conditionals, closed or not
    assert!(HeaderFilter::new("(?(1)").is_none());
    assert!(HeaderFilter::new("(?(a)b").is_none());
    assert!(HeaderFilter::new("(a)(?(1)b|c)").is_none());
    assert!(!pattern_is_plain("(?(1)"));
    // look-around, back references, atomic groups, possessive repetition
    assert!(HeaderFilter::new("^(?!x-internal).*: yes$").is_none());
    assert!(HeaderFilter::new("(?<=a)b").is_none());
    assert!(HeaderFilter::new(r"(a)\1").is_none());
    assert!(HeaderFilter::new(r"(?<n>a)\k<n>").is_none());
    assert!(HeaderFilter::new("(?>a|ab)c").is_none());
    assert!(HeaderFilter::new("a++").is_none());
    assert!(HeaderFilter::new("a*+").is_none());
    assert!(HeaderFilter::new(r"a\Kb").is_none());
    // escapes of the plain kind
    assert!(HeaderFilter::new(r"^\d+\.\w*\s\(x\)$").is_some());
    // comments and the flag that lets blanks be skipped
    assert!(HeaderFilter::new("a(?#note)b").is_none());
    assert!(HeaderFilter::new("(?x) a b").is_none());
    assert!(HeaderFilter::new("(?im)a").is_none());
    // plain groups and single flags
    assert!(HeaderFilter::new("(?:a|b)c").is_some());
    assert!(HeaderFilter::new("(?s)a.b").is_some());
    assert!(HeaderFilter::new("(?i:a)b").is_some());
    assert!(HeaderFilter::new("a?(b)").is_some());
    assert!(HeaderFilter::new("(a)?(b)+").is_some());
    assert!(pattern_is_plain("[a-"));
    assert!(!pattern_is_accepted("[a-"));
}

#[test]
fn counts_and_lengths_are_bounded() {
    assert!(pattern_is_plain("a{999999}"));
    assert!(!pattern_is_plain("a{9999999}"));
    assert!(!pattern_is_plain("(a{1000}){1000}"));
    assert!(pattern_is_plain("(a{100}){100}"));
    assert!(pattern_is_plain("token-1234567890{2}"));
    assert!(pattern_is_plain("a{2,1234567}"));
    assert!(bytes_are_plain(&vec![b'a'; MAX_PATTERN_LEN]));
    assert!(!bytes_are_plain(&vec![b'a'; MAX_PATTERN_LEN + 1]));
    assert!(HeaderFilter::new(&"a".repeat(MAX_PATTERN_LEN + 1)).is_none());
    assert!(HeaderFilter::new("a{3}b{2,4}").unwrap().is_match("x: aaabb"));
}

#[test]
fn a_filter_accepts_any_of_the_lines() {
    let hello = filter("Hello");
    let lines = vec!["host: localhost".to_string(), "mirrord-test: Hello".to_string()];
    assert!(hello.matches_any(&lines));
    assert!(!hello.matches_any(&vec!["host: localhost".to_string()]));
    assert!(!hello.matches_any(&Vec::new()));
}

#[test]
fn only_a_found_match_counts() {
    assert!(verdict_accepts(Some(true)));
    assert!(!verdict_accepts(Some(false)));
    assert!(!verdict_accepts(None));
}

#[test]
fn header_lines_are_name_colon_space_value() {
    assert_eq!(
        header_line(&header("mirrord-test", "Hello")),
        Some("mirrord-test: Hello".to_string())
    );
    assert_eq!(header_line(&header("host", "")), Some("host: ".to_string()));
    assert_eq!(header_line(&header("a", "b\tc d")), Some("a: b\tc d".to_string()));
}

#[test]
fn headers_that_are_no_text_have_no_line() {
    let binary = HttpHeader { name: b"x-bin".to_vec(), value: vec![0xff, 0x00] };
    assert_eq!(header_line(&binary), None);
    let control = HttpHeader { name: b"x-ctl".to_vec(), value: vec![b'a', 0x7f] };
    assert_eq!(header_line(&control), None);
    assert!(bytes_are_text(b"plain text\t".to_vec().as_ref()));
    assert!(!bytes_are_text(&vec![b'a', b'\n']));
    let lines = header_lines(&vec![header("a", "1"), binary, header("b", "2")]);
    assert_eq!(lines, vec!["a: 1".to_string(), "b: 2".to_string()]);
}

#[test]
fn the_first_favourable_verdict_wins() {
    assert_eq!(first_accepted(&vec![7, 8, 9], &vec![false, true, true]), Some(8));
    assert_eq!(first_accepted(&vec![7, 8, 9], &vec![false, false, false]), None);
    assert_eq!(first_accepted(&vec![7, 8, 9], &vec![true]), Some(7));
    assert_eq!(first_accepted(&vec![7], &vec![false, true]), None);
    assert_eq!(first_accepted(&Vec::new(), &Vec::new()), None);
}

#[test]
fn manager_keeps_clients_in_order_of_registration() {
    let mut manager = HttpFilterManager::new(7777, 5, filter("Hello"));
    assert_eq!(manager.port(), 7777);
    assert!(manager.contains_client(5));
    assert!(!manager.contains_client(6));
    assert_eq!(manager.new_client(6, filter("World")), None);
    assert_eq!(manager.new_client(4, filter("o")), None);
    assert_eq!(manager.clients(), vec![5, 6, 4]);
    // a second registration replaces the filter and keeps the place
    assert_eq!(manager.new_client(5, filter("Bye")), Some(filter("Hello")));
    assert_eq!(manager.clients(), vec![5, 6, 4]);
    assert_eq!(manager.remove_client(6), Some((6, filter("World"))));
    assert_eq!(manager.remove_client(6), None);
    assert_eq!(manager.clients(), vec![5, 4]);
    assert!(!manager.is_empty());
    manager.remove_client(5);
    manager.remove_client(4);
    assert!(manager.is_empty());
}

#[test]
fn the_first_client_in_the_table_wins_a_request() {
    let mut manager = HttpFilterManager::new(7777, 1, filter("second: yes"));
    manager.new_client(2, filter("first: yes"));
    manager.new_client(3, filter("yes"));
    // client 1 matches the second header, client 2 the first: the table decides
    let headers = vec![header("first", "yes"), header("second", "yes")];
    assert_eq!(manager.matching_client(&headers), Some(1));
    assert_eq!(manager.matching_client(&vec![header("first", "yes")]), Some(2));
    assert_eq!(manager.matching_client(&vec![header("third", "yes")]), Some(3));
    assert_eq!(manager.matching_client(&vec![header("third", "no")]), None);
    assert_eq!(manager.matching_client(&Vec::new()), None);
    let lines = vec!["first: yes".to_string()];
    assert_eq!(manager.verdicts(&lines), vec![false, true, true]);
}

#[test]
fn requests_are_counted_from_one() {
    let manager = HttpFilterManager::new(7777, 1, filter("Hello"));
    let mut handler = HyperHandler {
        connection_id: 3,
        port: 7777,
        original_destination: origin(),
        request_id: 0,
    };
    let request = get(vec![header("mirrord-test", "Hello")]);
    let decision = handler.call(&manager, request.clone());
    assert_eq!(handler.request_id, 1);
    assert_eq!(
        decision,
        Ok(HandlerDecision::Matched(MatchedHttpRequest {
            port: 7777,
            connection_id: 3,
            client_id: 1,
            request_id: 1,
            request,
        }))
    );
    let other = get(vec![header("mirrord-test", "World")]);
    let decision = handler.call(&manager, other.clone());
    assert_eq!(handler.request_id, 2);
    assert_eq!(
        decision,
        Ok(HandlerDecision::Unmatched { destination: origin(), request: other })
    );
}

#[test]
fn request_ids_run_out_without_wrapping() {
    let manager = HttpFilterManager::new(7777, 1, filter("Hello"));
    let mut handler = HyperHandler {
        connection_id: 3,
        port: 7777,
        original_destination: origin(),
        request_id: u64::MAX - 1,
    };
    assert!(handler.call(&manager, get(Vec::new())).is_ok());
    assert_eq!(handler.request_id, u64::MAX);
    assert_eq!(handler.call(&manager, get(Vec::new())), Err(HttpTrafficError::RequestIdsExhausted));
    assert_eq!(handler.request_id, u64::MAX);
}

#[test]
fn an_oversize_body_is_turned_down() {
    let manager = HttpFilterManager::new(7777, 1, filter("Hello"));
    let mut handler = HyperHandler {
        connection_id: 3,
        port: 7777,
        original_destination: origin(),
        request_id: 0,
    };
    let mut request = get(vec![header("mirrord-test", "Hello")]);
    request.body = vec![0; MAX_BODY_SIZE];
    assert!(matches!(handler.call(&manager, request.clone()), Ok(HandlerDecision::Matched(_))));
    request.body.push(0);
    assert_eq!(handler.call(&manager, request), Err(HttpTrafficError::BodyTooLarge));
    // the request was counted all the same
    assert_eq!(handler.request_id, 2);
}

#[test]
fn an_unmatched_request_is_handed_on_as_it_is() {
    let manager = HttpFilterManager::new(9000, 1, filter("X"));
    let handler = HyperHandler {
        connection_id: 0,
        port: 9000,
        original_destination: origin(),
        request_id: 4,
    };
    let request = InternalHttpRequest {
        method: "POST".to_string(),
        uri: "/upload?a=b".to_string(),
        headers: vec![header("content-length", "9"), header("host", "localhost")],
        version: HttpProtocol::Http11,
        body: b"post-data".to_vec(),
    };
    assert_eq!(manager.matching_client(&request.headers), None);
    match handler.dispatch(None, request.clone()) {
        HandlerDecision::Unmatched { destination, request: forwarded } => {
            assert_eq!(destination, origin());
            assert_eq!(forwarded, request);
        }
        other => panic!("unexpected decision {:?}", other),
    }
}

#[test]
fn framing_headers_are_stripped_from_responses() {
    assert!(is_framing_header(&b"content-length".to_vec()));
    assert!(is_framing_header(&b"Content-Length".to_vec()));
    assert!(is_framing_header(&b"TRANSFER-ENCODING".to_vec()));
    assert!(!is_framing_header(&b"content-type".to_vec()));
    assert!(!is_framing_header(&b"content-length ".to_vec()));
    let response = InternalHttpResponse {
        status: 200,
        version: HttpProtocol::Http11,
        headers: vec![
            header("content-type", "text/plain"),
            header("Content-Length", "2"),
            header("x-one", "1"),
            header("transfer-encoding", "chunked"),
            header("x-two", "2"),
        ],
        body: b"ok".to_vec(),
    };
    let stripped = strip_framing_headers(response);
    assert_eq!(stripped.status, 200);
    assert_eq!(stripped.version, HttpProtocol::Http11);
    assert_eq!(stripped.body, b"ok".to_vec());
    assert_eq!(
        stripped.headers,
        vec![header("content-type", "text/plain"), header("x-one", "1"), header("x-two", "2")]
    );
}

#[test]
fn nothing_peeked_means_no_filter() {
    let stolen = StolenConnection::new(origin(), 11);
    assert_eq!(HttpFilterBuilder::new(stolen, b""), Err(HttpTrafficError::Empty));
}

#[test]
fn http1_is_served_and_the_rest_passed_through() {
    let stolen = StolenConnection::new(origin(), 11);
    let builder = HttpFilterBuilder::new(stolen, b"GET / HTTP/1.1\r\nHost: x\r\n\r\n").unwrap();
    assert_eq!(builder.http_version, HttpVersion::V1);
    assert_eq!(
        builder.start(),
        HttpFilter::Serve(HyperHandler {
            connection_id: 11,
            port: 7777,
            original_destination: origin(),
            request_id: 0,
        })
    );
    let builder = HttpFilterBuilder::new(stolen, b"PRI * HTTP/2.0\r\n\r\nSM\r\n\r\n").unwrap();
    assert_eq!(builder.http_version, HttpVersion::V2);
    assert_eq!(builder.start(), HttpFilter::PassThrough(stolen));
    let builder = HttpFilterBuilder::new(stolen, b"\x00\x01\x02\x03").unwrap();
    assert_eq!(builder.http_version, HttpVersion::NotHttp);
    assert_eq!(builder.start(), HttpFilter::PassThrough(stolen));
}

#[test]
fn header_selection_by_two_patterns() {
    let select = HttpHeaderSelect::try_new("x-.*", "yes|no").unwrap();
    assert_eq!(select.to_regex_filter(), RegexFilter("x-.*".to_string(), "yes|no".to_string()));
    assert!(HttpHeaderSelect::try_new("(", ".*").is_none());
    assert!(HttpHeaderSelect::try_new(".*", "[").is_none());
    let wire = RegexFilter(".*".to_string(), ".*".to_string());
    assert_eq!(HttpHeaderSelect::from_regex_filter(&wire).unwrap().to_regex_filter(), wire);
    assert_eq!(HttpHeaderSelect::new("a", "b").to_regex_filter(), RegexFilter("a".into(), "b".into()));
}

#[test]
fn traffic_manager_hands_out_the_clients_filter() {
    let mut manager = EnterpriseTrafficManager::default();
    manager.new_client(1, filter("one"));
    manager.new_client(2, filter("two"));
    manager.new_client(1, filter("uno"));
    let preface = b"PRI * HTTP/2.0";
    assert_eq!(manager.new_connection(1, b"GET / HTTP/1.1\r\n", preface), Ok(filter("uno")));
    assert_eq!(manager.new_connection(2, b"PRI * HTTP/2.0", preface), Ok(filter("two")));
    assert_eq!(
        manager.new_connection(2, b"", preface),
        Err(mirrord_steal::traffic::HttpError::Empty)
    );
    assert_eq!(
        manager.new_connection(2, b"\x01\x02", preface),
        Err(mirrord_steal::traffic::HttpError::NotHttp)
    );
}
