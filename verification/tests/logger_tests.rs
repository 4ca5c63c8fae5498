use riddler::headers::{parse_headers, HeaderMap, TextMap};
use riddler::http_client::{HttpRequestBuilder, HttpResponseInfo};
use riddler::logger::{
    matching_entries, preview_bytes, preview_text, recent_entries, request_stats, HttpRequestInfo,
    RequestLogEntry,
};
use riddler::network::HttpRequest;

fn response(status: u16, time: u64) -> HttpResponseInfo {
    HttpResponseInfo {
        status,
        headers: TextMap::new(),
        body: String::new(),
        cookies: Vec::new(),
        response_time_ms: time,
        final_url: "http://x/".to_string(),
    }
}

fn log_entry(method: &str, url: &str, source: &str, resp: Option<HttpResponseInfo>) -> RequestLogEntry {
    RequestLogEntry {
        timestamp: 0,
        request: HttpRequestInfo {
            method: method.to_string(),
            url: url.to_string(),
            headers: parse_headers(vec!["User-Agent: Tester".to_string()]),
            body_preview: String::new(),
            source_ip: "127.0.0.1".to_string(),
            source_port: 0,
        },
        response: resp,
        source: source.to_string(),
    }
}

fn urls(es: &[RequestLogEntry]) -> Vec<String> {
    es.iter().map(|e| e.request.url.clone()).collect()
}

#[test]
fn short_bodies_are_kept_whole() {
    assert_eq!(preview_bytes(&b"hello".to_vec()), "hello");
    assert_eq!(preview_text("hello"), "hello");
    assert_eq!(preview_bytes(&Vec::new()), "");
}

#[test]
fn long_bodies_are_cut_after_1000_bytes() {
    let body = vec![b'a'; 1500];
    let p = preview_bytes(&body);
    assert_eq!(p.len(), 1003);
    assert!(p.ends_with("..."));
    let t = "b".repeat(1001);
    let q = preview_text(&t);
    assert_eq!(q, format!("{}...", "b".repeat(1000)));
    let exact = "c".repeat(1000);
    assert_eq!(preview_text(&exact), exact);
}

#[test]
fn previews_count_characters_not_bytes() {
    let body = format!("a{}", "é".repeat(1200));
    let p = preview_text(&body);
    assert_eq!(p, format!("a{}...", "é".repeat(999)));
    let bytes = "é".repeat(1001).into_bytes();
    assert_eq!(preview_bytes(&bytes), format!("{}...", "é".repeat(1000)));
    let short = "é".repeat(1000);
    assert_eq!(preview_text(&short), short);
    let headers: HeaderMap = TextMap::new();
    let m = HttpRequestInfo::for_manual("POST", "http://a/", headers, &body);
    assert_eq!(m.body_preview, p);
}

#[test]
fn invalid_utf8_in_preview_is_replaced() {
    assert_eq!(preview_bytes(&vec![b'o', b'k', 0xff]), "ok\u{FFFD}");
}

#[test]
fn captured_request_info_keeps_its_fields() {
    let req = HttpRequest {
        method: "POST".to_string(),
        url: "http://h/p".to_string(),
        headers: parse_headers(vec!["A:1".to_string()]),
        body: b"data".to_vec(),
        source_ip: "10.0.0.1".to_string(),
        source_port: 5555,
    };
    let info = HttpRequestInfo::from(&req);
    assert_eq!(info.method, "POST");
    assert_eq!(info.url, "http://h/p");
    assert_eq!(info.headers.get("A").map(|s| s.as_str()), Some("1"));
    assert_eq!(info.body_preview, "data");
    assert_eq!(info.source_ip, "10.0.0.1");
    assert_eq!(info.source_port, 5555);
}

#[test]
fn manual_and_replay_infos_name_their_source() {
    let headers: HeaderMap = TextMap::new();
    let m = HttpRequestInfo::for_manual("GET", "http://a/", headers, "x");
    assert_eq!(m.source_ip, "manual");
    assert_eq!(m.source_port, 0);
    assert_eq!(m.body_preview, "x");
    let b = HttpRequestBuilder {
        method: "PUT".to_string(),
        url: "http://b/".to_string(),
        headers: TextMap::new(),
        body: None,
        timeout_seconds: 30,
        follow_redirects: true,
        verify_ssl: true,
    };
    let r = HttpRequestInfo::for_replay(&b);
    assert_eq!(r.source_ip, "replay");
    assert_eq!(r.method, "PUT");
    assert_eq!(r.body_preview, "");
}

fn recent_lines() -> Vec<Option<RequestLogEntry>> {
    vec![
        Some(log_entry("GET", "u1", "manual", None)),
        None,
        Some(log_entry("GET", "u2", "manual", None)),
        Some(log_entry("GET", "u3", "manual", None)),
    ]
}

#[test]
fn recent_entries_take_the_last_lines() {
    assert_eq!(urls(&recent_entries(recent_lines(), 2)), vec!["u2", "u3"]);
    assert_eq!(urls(&recent_entries(recent_lines(), 3)), vec!["u2", "u3"]);
    assert_eq!(urls(&recent_entries(recent_lines(), 10)), vec!["u1", "u2", "u3"]);
    assert!(recent_entries(recent_lines(), 0).is_empty());
}

fn search_lines() -> Vec<Option<RequestLogEntry>> {
    let mut with_header = log_entry("GET", "http://c/", "manual", None);
    with_header.request.headers = parse_headers(vec!["X-Token: SECRET-VALUE".to_string()]);
    vec![
        Some(log_entry("GET", "http://API.github.com/a", "manual", None)),
        Some(log_entry("POST", "http://other/", "manual", None)),
        Some(log_entry("GET", "http://api.github.com/b", "replay", None)),
        Some(with_header),
        None,
    ]
}

#[test]
fn search_is_case_insensitive_and_limited() {
    assert_eq!(urls(&matching_entries(search_lines(), "api.GITHUB", 10)), vec![
        "http://API.github.com/a",
        "http://api.github.com/b"
    ]);
    assert_eq!(urls(&matching_entries(search_lines(), "github", 1)), vec!["http://api.github.com/b"]);
    assert_eq!(urls(&matching_entries(search_lines(), "post", 10)), vec!["http://other/"]);
    assert_eq!(urls(&matching_entries(search_lines(), "secret-value", 10)), vec!["http://c/"]);
    assert!(matching_entries(search_lines(), "nothing-like-this", 10).is_empty());
    assert!(matching_entries(search_lines(), "github", 0).is_empty());
}

#[test]
fn stats_count_sources_outcomes_and_methods() {
    let lines = vec![
        Some(log_entry("GET", "a", "manual", Some(response(200, 100)))),
        Some(log_entry("GET", "b", "replay", Some(response(404, 300)))),
        None,
        Some(log_entry("POST", "c", "other", Some(response(302, 200)))),
        Some(log_entry("POST", "d", "monitored", None)),
    ];
    let s = request_stats(&lines);
    assert_eq!(s.total_requests, 4);
    assert_eq!(s.manual_requests, 1);
    assert_eq!(s.replay_requests, 1);
    assert_eq!(s.monitord_requests, 1);
    assert_eq!(s.successful_requests, 1);
    assert_eq!(s.failed_requests, 1);
    assert!(s.successful_requests + s.failed_requests <= s.total_requests);
    assert_eq!(s.total_response_time, 600);
    assert_eq!(s.average_response_time, 150);
    assert_eq!(s.methods.get("GET"), Some(&2));
    assert_eq!(s.methods.get("POST"), Some(&2));
}

#[test]
fn stats_of_an_empty_log() {
    let s = request_stats(&vec![None, None]);
    assert_eq!(s.total_requests, 0);
    assert_eq!(s.average_response_time, 0);
    assert_eq!(s.methods.len(), 0);
}
