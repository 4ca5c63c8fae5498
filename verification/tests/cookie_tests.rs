use riddler::cookie_manager::{parse_url, CookieEntry, CookieManager, RequestUrl};

fn url(s: &str) -> RequestUrl {
    parse_url(s).unwrap()
}

fn entry(name: &str, value: &str, domain: &str, expires: Option<u64>, secure: bool) -> CookieEntry {
    CookieEntry {
        name: name.to_string(),
        value: value.to_string(),
        domain: domain.to_string(),
        path: "/".to_string(),
        expires,
        secure,
        http_only: false,
        same_site: None,
    }
}

#[test]
fn urls_are_parsed_into_their_parts() {
    let u = url("https://example.com/a/b?q=1");
    assert_eq!(u.serialization, "https://example.com/a/b?q=1");
    assert_eq!(u.scheme, "https");
    assert_eq!(u.domain.as_deref(), Some("example.com"));
    assert_eq!(u.path, "/a/b");
    let ip = url("http://127.0.0.1:8080");
    assert_eq!(ip.domain, None);
    assert_eq!(ip.path, "/");
    assert!(parse_url("not a url").is_none());
}

#[test]
fn added_cookie_is_sent_back() {
    let mut m = CookieManager::new("./cookies.json".to_string());
    m.add_cookie(&url("https://example.com"), "session=abc123; Path=/; Domain=.example.com");
    assert_eq!(m.cookies_for_url_at(&url("https://example.com/page"), 0), vec!["session=abc123".to_string()]);
    assert_eq!(m.get_cookies_for_url(&url("https://example.com/page")), vec!["session=abc123".to_string()]);
    let listed = m.list_cookies(None);
    assert_eq!(listed.len(), 1);
    assert_eq!(listed[0].name, "session");
    assert_eq!(listed[0].value, "abc123");
    assert_eq!(listed[0].domain, "example.com");
    assert_eq!(listed[0].path, "/");
    assert_eq!(listed[0].expires, None);
    assert!(!listed[0].secure);
    assert!(!listed[0].http_only);
    assert_eq!(listed[0].same_site, None);
}

#[test]
fn cookie_attributes_are_kept() {
    let mut m = CookieManager::new("c.json".to_string());
    m.add_cookie(
        &url("https://example.com/"),
        "id=7; Domain=example.com; Path=/app; Secure; HttpOnly; SameSite=Strict; Expires=Wed, 21 Oct 2015 07:28:00 GMT",
    );
    let listed = m.list_cookies(None);
    assert_eq!(listed.len(), 1);
    assert_eq!(listed[0].path, "/app");
    assert_eq!(listed[0].expires, Some(1445412480));
    assert!(listed[0].secure);
    assert!(listed[0].http_only);
    assert_eq!(listed[0].same_site.as_deref(), Some("Strict"));
}

#[test]
fn same_domain_and_name_replaces() {
    let mut m = CookieManager::new("c.json".to_string());
    let u = url("https://example.com/");
    m.add_cookie(&u, "a=1; Domain=example.com");
    m.add_cookie(&u, "a=2; Domain=example.com");
    m.add_cookie(&u, "b=3; Domain=example.com");
    let mut sent = m.cookies_for_url_at(&u, 0);
    sent.sort();
    assert_eq!(sent, vec!["a=2".to_string(), "b=3".to_string()]);
}

#[test]
fn unparsable_cookie_is_ignored() {
    let mut m = CookieManager::new("c.json".to_string());
    m.add_cookie(&url("https://example.com/"), "no equals sign");
    assert!(m.list_cookies(None).is_empty());
}

#[test]
fn cookie_for_another_domain_is_refused() {
    let mut m = CookieManager::new("c.json".to_string());
    m.add_cookie(&url("https://other.org/"), "a=1; Domain=example.com");
    assert!(m.list_cookies(None).is_empty());
}

#[test]
fn cookie_without_domain_takes_the_host_and_is_sent() {
    let mut m = CookieManager::new("cookies.json".to_string());
    let u = url("https://example.com/");
    m.add_cookie(&u, "sid=1");
    let listed = m.list_cookies(None);
    assert_eq!(listed.len(), 1);
    assert_eq!(listed[0].domain, "example.com");
    assert_eq!(m.cookies_for_url_at(&u, 0), vec!["sid=1".to_string()]);
    assert_eq!(m.get_cookies_for_url(&u), vec!["sid=1".to_string()]);
    assert!(m.cookies_for_url_at(&url("https://other.org/"), 0).is_empty());
}

#[test]
fn matching_rules_for_domain_path_secure_and_expiry() {
    let mut m = CookieManager::new("c.json".to_string());
    m.load_entries(vec![
        entry("exact", "1", "example.com", None, false),
        entry("dotted", "2", ".example.com", None, false),
        entry("secure", "3", "example.com", None, true),
        entry("old", "4", "example.com", Some(100), false),
    ]);
    let mut plain = m.cookies_for_url_at(&url("http://example.com/x"), 100);
    plain.sort();
    assert_eq!(plain, vec!["dotted=2".to_string(), "exact=1".to_string(), "old=4".to_string()]);
    let mut later = m.cookies_for_url_at(&url("https://example.com/x"), 101);
    later.sort();
    assert_eq!(later, vec!["dotted=2".to_string(), "exact=1".to_string(), "secure=3".to_string()]);
    let sub = m.cookies_for_url_at(&url("http://www.example.com/"), 0);
    assert_eq!(sub, vec!["dotted=2".to_string()]);
    assert!(m.cookies_for_url_at(&url("http://example.org/"), 0).is_empty());
}

#[test]
fn path_must_start_with_cookie_path() {
    let mut m = CookieManager::new("c.json".to_string());
    let mut c = entry("p", "1", "example.com", None, false);
    c.path = "/app".to_string();
    m.load_entries(vec![c]);
    assert_eq!(m.cookies_for_url_at(&url("http://example.com/app/x"), 0), vec!["p=1".to_string()]);
    assert!(m.cookies_for_url_at(&url("http://example.com/other"), 0).is_empty());
}

#[test]
fn clearing_expired_keeps_current_cookies() {
    let mut m = CookieManager::new("c.json".to_string());
    m.load_entries(vec![
        entry("a", "1", "x.com", Some(50), false),
        entry("b", "2", "x.com", Some(150), false),
        entry("c", "3", "x.com", None, false),
    ]);
    m.clear_expired_at(100);
    let mut names: Vec<String> = m.list_cookies(None).into_iter().map(|c| c.name).collect();
    names.sort();
    assert_eq!(names, vec!["b".to_string(), "c".to_string()]);
    m.clear_expired_at(100);
    assert_eq!(m.list_cookies(None).len(), 2);
    m.clear_expired();
    let names: Vec<String> = m.list_cookies(None).into_iter().map(|c| c.name).collect();
    assert_eq!(names, vec!["c".to_string()]);
}

#[test]
fn domain_filter_lists_matching_cookies() {
    let mut m = CookieManager::new("c.json".to_string());
    m.load_entries(vec![
        entry("a", "1", "example.com", None, false),
        entry("b", "2", "api.example.com", None, false),
        entry("c", "3", "other.org", None, false),
    ]);
    let mut names: Vec<String> = m.list_cookies(Some("example")).into_iter().map(|c| c.name).collect();
    names.sort();
    assert_eq!(names, vec!["a".to_string(), "b".to_string()]);
    assert_eq!(m.list_cookies(Some("nothing")).len(), 0);
    assert_eq!(m.list_cookies(None).len(), 3);
}

#[test]
fn clear_all_empties_the_store() {
    let mut m = CookieManager::new("c.json".to_string());
    m.load_entries(vec![entry("a", "1", "x.com", None, false)]);
    m.clear_all();
    assert!(m.list_cookies(None).is_empty());
    assert!(m.stored_entries().is_empty());
    assert_eq!(m.file_path(), "c.json");
}

#[test]
fn reloading_a_listing_restores_the_store() {
    let mut m = CookieManager::new("c.json".to_string());
    let u = url("https://example.com/");
    m.add_cookie(&u, "a=1; Domain=example.com");
    m.add_cookie(&u, "b=2; Domain=example.com; Path=/x");
    let saved: Vec<CookieEntry> = m.stored_entries().into_iter().map(|(_, c)| c).collect();
    let mut fresh = CookieManager::new("c.json".to_string());
    fresh.load_entries(saved);
    let mut before: Vec<(String, String, String)> =
        m.stored_entries().into_iter().map(|(k, c)| (k, c.value, c.path)).collect();
    let mut after: Vec<(String, String, String)> =
        fresh.stored_entries().into_iter().map(|(k, c)| (k, c.value, c.path)).collect();
    before.sort();
    after.sort();
    assert_eq!(before, after);
    assert_eq!(after[0].0, "example.com:a");
}

#[test]
fn later_loaded_cookie_overrides_earlier() {
    let mut m = CookieManager::new("c.json".to_string());
    m.load_entries(vec![entry("a", "1", "x.com", None, false), entry("a", "2", "x.com", None, false)]);
    let listed = m.list_cookies(None);
    assert_eq!(listed.len(), 1);
    assert_eq!(listed[0].value, "2");
}

#[test]
fn response_cookies_are_stored_in_order() {
    let mut m = CookieManager::new("c.json".to_string());
    let u = url("https://example.com/");
    m.add_response_cookies(&u, &vec![
        "a=1; Domain=example.com".to_string(),
        "garbage".to_string(),
        "a=2; Domain=example.com".to_string(),
        "b=3; Domain=example.com".to_string(),
    ]);
    let mut sent = m.cookies_for_url_at(&u, 0);
    sent.sort();
    assert_eq!(sent, vec!["a=2".to_string(), "b=3".to_string()]);
}
