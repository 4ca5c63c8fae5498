use riddler::headers::parse_headers;
use riddler::logger::{HttpRequestInfo, RequestLogEntry};
use riddler::replay::{entries_from_source, replay_schedule, requests_to_replay, ReplayStep};
use riddler::replay::ReplayStep::{Begin, Send, Wait};

fn entry(url: &str, source: &str, body: &str) -> RequestLogEntry {
    RequestLogEntry {
        timestamp: 0,
        request: HttpRequestInfo {
            method: "POST".to_string(),
            url: url.to_string(),
            headers: parse_headers(vec!["A: 1".to_string()]),
            body_preview: body.to_string(),
            source_ip: "x".to_string(),
            source_port: 0,
        },
        response: None,
        source: source.to_string(),
    }
}

fn logs() -> Vec<RequestLogEntry> {
    vec![entry("u1", "manual", ""), entry("u2", "monitored", "data"), entry("u3", "manual", "b")]
}

#[test]
fn all_entries_are_replayed_without_source() {
    let r = requests_to_replay(&logs(), &None);
    let urls: Vec<&str> = r.iter().map(|b| b.url.as_str()).collect();
    assert_eq!(urls, vec!["u1", "u2", "u3"]);
    assert!(r[0].body.is_none());
    assert_eq!(r[1].body.as_deref(), Some("data"));
    assert_eq!(r[1].method, "POST");
    assert_eq!(r[1].headers.get("A").map(|s| s.as_str()), Some("1"));
    assert_eq!(r[1].timeout_seconds, 30);
    assert!(r[1].follow_redirects && r[1].verify_ssl);
}

#[test]
fn source_filter_selects_entries() {
    let r = requests_to_replay(&logs(), &Some("manual".to_string()));
    let urls: Vec<&str> = r.iter().map(|b| b.url.as_str()).collect();
    assert_eq!(urls, vec!["u1", "u3"]);
    assert!(requests_to_replay(&logs(), &Some("replay".to_string())).is_empty());
}

#[test]
fn schedule_with_delay() {
    assert_eq!(replay_schedule(2, 2, 100), vec![
        Begin { request: 0 },
        Send { request: 0, attempt: 1 },
        Wait { millis: 100 },
        Send { request: 0, attempt: 2 },
        Wait { millis: 200 },
        Begin { request: 1 },
        Send { request: 1, attempt: 1 },
        Wait { millis: 100 },
        Send { request: 1, attempt: 2 },
    ]);
}

#[test]
fn schedule_without_delay_never_waits() {
    assert_eq!(replay_schedule(2, 3, 0), vec![
        Begin { request: 0 },
        Send { request: 0, attempt: 1 },
        Send { request: 0, attempt: 2 },
        Send { request: 0, attempt: 3 },
        Begin { request: 1 },
        Send { request: 1, attempt: 1 },
        Send { request: 1, attempt: 2 },
        Send { request: 1, attempt: 3 },
    ]);
}

#[test]
fn schedule_sends_each_request_count_times() {
    let s = replay_schedule(4, 3, 50);
    let sends = s.iter().filter(|x| matches!(x, ReplayStep::Send { .. })).count();
    assert_eq!(sends, 12);
    assert!(replay_schedule(0, 3, 50).is_empty());
    assert_eq!(replay_schedule(2, 0, 50), vec![Begin { request: 0 }, Wait { millis: 100 }, Begin { request: 1 }]);
}

#[test]
fn logs_are_filtered_by_source() {
    let urls = |es: Vec<RequestLogEntry>| es.into_iter().map(|e| e.request.url).collect::<Vec<String>>();
    assert_eq!(urls(entries_from_source(logs(), &Some("manual".to_string()))), vec!["u1", "u3"]);
    assert_eq!(urls(entries_from_source(logs(), &Some("monitored".to_string()))), vec!["u2"]);
    assert_eq!(urls(entries_from_source(logs(), &None)), vec!["u1", "u2", "u3"]);
    assert!(entries_from_source(logs(), &Some("other".to_string())).is_empty());
}
