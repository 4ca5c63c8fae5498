use riddler::headers::parse_headers;
use riddler::http_client::{cookie_header, request_method, response_wait_seconds, sendable_headers, HttpMethod, HttpRequestBuilder};
use riddler::network::HttpRequest;

#[test]
fn method_names_are_compared_in_uppercase() {
    assert_eq!(request_method("post"), HttpMethod::Post);
    assert_eq!(request_method("Put"), HttpMethod::Put);
    assert_eq!(request_method("DELETE"), HttpMethod::Delete);
    assert_eq!(request_method("head"), HttpMethod::Head);
    assert_eq!(request_method("options"), HttpMethod::Options);
    assert_eq!(request_method("patch"), HttpMethod::Patch);
    assert_eq!(request_method("connect"), HttpMethod::Connect);
    assert_eq!(request_method("Trace"), HttpMethod::Trace);
    assert_eq!(request_method("get"), HttpMethod::Get);
}

#[test]
fn unknown_method_falls_back_to_get() {
    assert_eq!(request_method("FETCH"), HttpMethod::Get);
    assert_eq!(request_method(""), HttpMethod::Get);
}

#[test]
fn cookies_are_joined_into_one_header() {
    assert_eq!(cookie_header(&Vec::new()), None);
    assert_eq!(cookie_header(&vec!["a=1".to_string()]), Some("a=1".to_string()));
    assert_eq!(
        cookie_header(&vec!["a=1".to_string(), "b=2".to_string(), "c=3".to_string()]),
        Some("a=1; b=2; c=3".to_string())
    );
}

#[test]
fn response_wait_is_at_least_five_seconds() {
    assert_eq!(response_wait_seconds(0), 5);
    assert_eq!(response_wait_seconds(5), 5);
    assert_eq!(response_wait_seconds(6), 6);
    assert_eq!(response_wait_seconds(30), 30);
}

#[test]
fn replay_of_a_captured_request() {
    let captured = HttpRequest {
        method: "POST".to_string(),
        url: "http://h/p".to_string(),
        headers: parse_headers(vec!["Host: h".to_string()]),
        body: vec![b'h', b'i', 0xff],
        source_ip: "1.2.3.4".to_string(),
        source_port: 1,
    };
    let b = HttpRequestBuilder::for_replay(&captured);
    assert_eq!(b.method, "POST");
    assert_eq!(b.url, "http://h/p");
    assert_eq!(b.headers.get("Host").map(|s| s.as_str()), Some("h"));
    assert_eq!(b.body.as_deref(), Some("hi\u{FFFD}"));
    assert_eq!(b.timeout_seconds, 30);
    assert!(b.follow_redirects);
    assert!(b.verify_ssl);
    let empty = HttpRequest { body: Vec::new(), ..captured };
    assert!(HttpRequestBuilder::for_replay(&empty).body.is_none());
}

#[test]
fn only_acceptable_headers_are_sent() {
    let headers = parse_headers(vec![
        "X-Good: yes".to_string(),
        "Bad Name: x".to_string(),
        "X-Bad-Value: a\u{7f}b".to_string(),
        "X-Tab: a\tb".to_string(),
        "X-Utf8: é".to_string(),
        ": empty".to_string(),
    ]);
    let mut sent = sendable_headers(&headers);
    sent.sort();
    assert_eq!(sent, vec![
        ("X-Good".to_string(), "yes".to_string()),
        ("X-Tab".to_string(), "a\tb".to_string()),
        ("X-Utf8".to_string(), "é".to_string()),
    ]);
}
