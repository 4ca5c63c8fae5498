use riddler::network::{HttpParser, NetworkPacket};

fn packet(payload: &[u8]) -> NetworkPacket {
    NetworkPacket {
        src_ip: "10.0.0.2".to_string(),
        dst_ip: "93.184.216.34".to_string(),
        src_port: 54321,
        dst_port: 80,
        _protocol: "TCP".to_string(),
        payload: payload.to_vec(),
        _timestamp: 0,
        _tcp_seq: None,
        _tcp_ack: None,
        _tcp_flags: None,
    }
}

#[test]
fn parser_can_be_created() {
    let _p: HttpParser = HttpParser::new();
}

#[test]
fn method_at_start_is_recognised() {
    assert!(HttpParser::contains_http_method(b"GET / HTTP/1.1\r\n"));
    assert!(HttpParser::contains_http_method(b"DELETE /x HTTP/1.1"));
    assert!(HttpParser::contains_http_method(b"CONNECT a:443 HTTP/1.1"));
}

#[test]
fn short_payload_has_no_method() {
    assert!(!HttpParser::contains_http_method(b"GET"));
    assert!(!HttpParser::contains_http_method(b""));
}

#[test]
fn method_inside_short_payload_is_found() {
    assert!(HttpParser::contains_http_method(b"xxPOST /a"));
}

#[test]
fn method_inside_long_payload_is_not_searched() {
    let mut p = vec![b'x'; 70];
    p.extend_from_slice(b"GET / HTTP/1.1");
    assert!(!HttpParser::contains_http_method(&p));
}

#[test]
fn binary_payload_has_no_method() {
    assert!(!HttpParser::contains_http_method(&[0x16, 0x03, 0x01, 0x02, 0x00, 0x01]));
}

#[test]
fn request_with_host_gets_absolute_url() {
    let r = HttpParser::parse_http_request_from_string(
        "GET /index.html HTTP/1.1\r\nHost: example.com\r\nUser-Agent: t\r\n\r\nbody",
    )
    .unwrap();
    assert_eq!(r.method, "GET");
    assert_eq!(r.url, "http://example.com/index.html");
    assert_eq!(r.headers.get("host").map(|s| s.as_str()), Some("example.com"));
    assert_eq!(r.headers.get("user-agent").map(|s| s.as_str()), Some("t"));
    assert_eq!(r.headers.len(), 2);
    assert!(r.body.is_empty());
    assert_eq!(r.source_ip, "");
    assert_eq!(r.source_port, 0);
}

#[test]
fn header_names_are_lowercased() {
    let r = HttpParser::parse_http_request_from_string(
        "POST /api HTTP/1.1\nHOST: API.example.com\nContent-Type: text/plain\n",
    )
    .unwrap();
    assert_eq!(r.method, "POST");
    assert_eq!(r.url, "http://API.example.com/api");
    assert_eq!(r.headers.get("content-type").map(|s| s.as_str()), Some("text/plain"));
}

#[test]
fn forwarded_https_gives_https_url() {
    let r = HttpParser::parse_http_request_from_string(
        "GET /a HTTP/1.1\r\nHost: h\r\nX-Forwarded-Proto: https\r\n\r\n",
    )
    .unwrap();
    assert_eq!(r.url, "https://h/a");
}

#[test]
fn absolute_target_is_kept() {
    let r = HttpParser::parse_http_request_from_string("GET http://x.org/p HTTP/1.1\r\n\r\n").unwrap();
    assert_eq!(r.url, "http://x.org/p");
}

#[test]
fn scheme_relative_target_gets_scheme() {
    let r = HttpParser::parse_http_request_from_string("GET //x.org/p HTTP/1.1\r\n\r\n").unwrap();
    assert_eq!(r.url, "http://x.org/p");
}

#[test]
fn missing_host_leaves_empty_authority() {
    let r = HttpParser::parse_http_request_from_string("GET /p HTTP/1.1\r\n\r\n").unwrap();
    assert_eq!(r.url, "http:///p");
}

#[test]
fn headers_stop_at_blank_line() {
    let r = HttpParser::parse_http_request_from_string("GET / HTTP/1.1\r\nA: 1\r\n\r\nB: 2\r\n").unwrap();
    assert_eq!(r.headers.get("a").map(|s| s.as_str()), Some("1"));
    assert_eq!(r.headers.get("b"), None);
}

#[test]
fn line_without_colon_is_skipped_in_headers() {
    let r = HttpParser::parse_http_request_from_string("GET / HTTP/1.1\r\ngarbage\r\nA: 1\r\n").unwrap();
    assert_eq!(r.headers.len(), 1);
    assert_eq!(r.headers.get("a").map(|s| s.as_str()), Some("1"));
}

#[test]
fn request_line_after_noise_is_found() {
    let r = HttpParser::parse_http_request_from_string("noise\nPUT /x HTTP/1.1\nHost: h\n").unwrap();
    assert_eq!(r.method, "PUT");
    assert_eq!(r.url, "http://h/x");
}

#[test]
fn text_without_http_is_not_a_request() {
    assert!(HttpParser::parse_http_request_from_string("hello world").is_none());
}

#[test]
fn unknown_method_is_not_a_request() {
    assert!(HttpParser::parse_http_request_from_string("FETCH / HTTP/1.1\r\n").is_none());
}

#[test]
fn request_line_needs_three_words() {
    assert!(HttpParser::parse_http_request_from_string("GET /\r\nHost: h HTTP/1.1\r\n").is_none());
}

#[test]
fn packet_request_takes_source_address() {
    let p = packet(b"GET /a HTTP/1.1\r\nHost: h\r\n\r\n");
    let r = HttpParser::parse_http_request(&p).unwrap();
    assert_eq!(r.method, "GET");
    assert_eq!(r.url, "http://h/a");
    assert_eq!(r.source_ip, "10.0.0.2");
    assert_eq!(r.source_port, 54321);
}

#[test]
fn short_packet_is_not_parsed() {
    let p = packet(b"GET / HTTP/1.1");
    assert!(HttpParser::parse_http_request(&p).is_none());
}

#[test]
fn packet_without_method_is_not_parsed() {
    let p = packet(b"HTTP/1.1 200 OK\r\nContent-Length: 0\r\n\r\n");
    assert!(HttpParser::parse_http_request(&p).is_none());
}

#[test]
fn invalid_utf8_is_decoded_lossily() {
    let mut payload = b"GET /\xff HTTP/1.1\r\nHost: h\r\n\r\n".to_vec();
    payload.push(b'x');
    let r = HttpParser::parse_http_request(&packet(&payload)).unwrap();
    assert_eq!(r.url, "http://h/\u{FFFD}");
}
