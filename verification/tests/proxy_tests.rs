use riddler::proxy::{bad_gateway, classify_request_line, http_reply, parse_u16_range, tunnel_established, ProxyRequest};
use riddler::proxy_config::{init_proxy, proxy_environment, should_use_proxy};

fn chars(s: &str) -> Vec<char> {
    s.chars().collect()
}

#[test]
fn connect_opens_a_tunnel() {
    match classify_request_line("CONNECT example.com:8443 HTTP/1.1") {
        ProxyRequest::Connect { host, port } => {
            assert_eq!(host, "example.com");
            assert_eq!(port, 8443);
        },
        _ => panic!("expected a tunnel"),
    }
}

#[test]
fn connect_with_bad_port_uses_443() {
    match classify_request_line("CONNECT example.com:https HTTP/1.1") {
        ProxyRequest::Connect { host, port } => {
            assert_eq!(host, "example.com");
            assert_eq!(port, 443);
        },
        _ => panic!("expected a tunnel"),
    }
    match classify_request_line("CONNECT h:70000 HTTP/1.1") {
        ProxyRequest::Connect { port, .. } => assert_eq!(port, 443),
        _ => panic!("expected a tunnel"),
    }
}

#[test]
fn connect_without_single_colon_is_ignored() {
    assert!(matches!(classify_request_line("CONNECT example.com HTTP/1.1"), ProxyRequest::Ignore));
    assert!(matches!(classify_request_line("CONNECT [::1]:443 HTTP/1.1"), ProxyRequest::Ignore));
}

#[test]
fn short_lines_are_ignored() {
    assert!(matches!(classify_request_line(""), ProxyRequest::Ignore));
    assert!(matches!(classify_request_line("GET"), ProxyRequest::Ignore));
}

#[test]
fn other_methods_are_answered() {
    match classify_request_line("GET http://example.com/ HTTP/1.1") {
        ProxyRequest::Forward { method, target } => {
            assert_eq!(method, "GET");
            assert_eq!(target, "http://example.com/");
        },
        _ => panic!("expected a reply"),
    }
    assert!(matches!(classify_request_line("connect a:1 HTTP/1.1"), ProxyRequest::Forward { .. }));
}

#[test]
fn port_numbers_parse_like_str_parse() {
    let v = chars("+80|0|65535|65536||+|8a");
    assert_eq!(parse_u16_range(&v, 0, 3), Some(80));
    assert_eq!(parse_u16_range(&v, 4, 5), Some(0));
    assert_eq!(parse_u16_range(&v, 6, 11), Some(65535));
    assert_eq!(parse_u16_range(&v, 12, 17), None);
    assert_eq!(parse_u16_range(&v, 18, 18), None);
    assert_eq!(parse_u16_range(&v, 19, 20), None);
    assert_eq!(parse_u16_range(&v, 21, 23), None);
}

#[test]
fn replies_are_fixed_texts() {
    assert_eq!(
        http_reply("POST"),
        "HTTP/1.1 200 OK\r\nContent-Type: text/plain\r\nContent-Length: 27\r\n\r\nProxy handled POST request"
    );
    assert_eq!(tunnel_established(), "HTTP/1.1 200 Connection Established\r\n\r\n");
    assert_eq!(bad_gateway(), "HTTP/1.1 502 Bad Gateway\r\n\r\n");
    assert_eq!(
        http_reply("GET"),
        "HTTP/1.1 200 OK\r\nContent-Type: text/plain\r\nContent-Length: 27\r\n\r\nProxy handled GET request"
    );
}

#[test]
fn proxy_setting_decides_use() {
    assert!(should_use_proxy(None));
    assert!(should_use_proxy(Some("true".to_string())));
    assert!(!should_use_proxy(Some("false".to_string())));
    assert!(!should_use_proxy(Some("TRUE".to_string())));
}

#[test]
fn proxy_environment_names_every_variable() {
    let env = proxy_environment();
    let names: Vec<&str> = env.iter().map(|(k, _)| k.as_str()).collect();
    assert_eq!(names, vec![
        "HTTP_PROXY",
        "HTTPS_PROXY",
        "http_proxy",
        "https_proxy",
        "ALL_PROXY",
        "all_proxy",
        "HTTPS_PROXY_URL",
        "HTTP_PROXY_URL"
    ]);
    assert!(env.iter().all(|(_, v)| v == "http://127.0.0.1:7897"));
}

#[test]
fn proxy_is_initialised_once() {
    let mut initialized = false;
    assert_eq!(init_proxy(&mut initialized, None).len(), 8);
    assert!(initialized);
    assert!(init_proxy(&mut initialized, None).is_empty());
    let mut fresh = false;
    assert!(init_proxy(&mut fresh, Some("false".to_string())).is_empty());
    assert!(fresh);
}
