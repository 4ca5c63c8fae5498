use riddler::headers::{parse_headers, HeaderMap, TextMap};

fn strings(items: &[&str]) -> Vec<String> {
    items.iter().map(|s| s.to_string()).collect()
}

#[test]
fn parse_headers_trims_names_and_values() {
    let m = parse_headers(strings(&["Content-Type: application/json", "  X-Api-Key :  abc "]));
    assert_eq!(m.len(), 2);
    assert_eq!(m.get("Content-Type").map(|s| s.as_str()), Some("application/json"));
    assert_eq!(m.get("X-Api-Key").map(|s| s.as_str()), Some("abc"));
}

#[test]
fn parse_headers_splits_at_first_colon_only() {
    let m = parse_headers(strings(&["Host:example.com:8080"]));
    assert_eq!(m.get("Host").map(|s| s.as_str()), Some("example.com:8080"));
}

#[test]
fn parse_headers_skips_arguments_without_colon() {
    let m = parse_headers(strings(&["no-colon-here", "A:1"]));
    assert_eq!(m.len(), 1);
    assert_eq!(m.get("no-colon-here"), None);
    assert_eq!(m.get("A").map(|s| s.as_str()), Some("1"));
}

#[test]
fn parse_headers_later_argument_overrides() {
    let m = parse_headers(strings(&["A:1", "B:2", "A:3"]));
    assert_eq!(m.len(), 2);
    assert_eq!(m.get("A").map(|s| s.as_str()), Some("3"));
    assert_eq!(m.get("B").map(|s| s.as_str()), Some("2"));
}

#[test]
fn parse_headers_empty_name_and_value_are_kept() {
    let m = parse_headers(strings(&[":"]));
    assert_eq!(m.len(), 1);
    assert_eq!(m.get("").map(|s| s.as_str()), Some(""));
}

#[test]
fn header_map_read_after_write() {
    let mut m: HeaderMap = TextMap::new();
    assert_eq!(m.len(), 0);
    m.insert("x".to_string(), "1".to_string());
    m.insert("y".to_string(), "2".to_string());
    m.insert("x".to_string(), "3".to_string());
    assert_eq!(m.len(), 2);
    assert_eq!(m.get("x").map(|s| s.as_str()), Some("3"));
    assert_eq!(m.get("y").map(|s| s.as_str()), Some("2"));
    assert_eq!(m.get("z"), None);
}

#[test]
fn counter_map_increments() {
    let mut m: TextMap<usize> = TextMap::new();
    m.increment("GET".to_string());
    m.increment("POST".to_string());
    m.increment("GET".to_string());
    assert_eq!(m.get("GET"), Some(&2));
    assert_eq!(m.get("POST"), Some(&1));
    let mut pairs = m.to_pairs();
    pairs.sort();
    assert_eq!(pairs, vec![("GET".to_string(), 2), ("POST".to_string(), 1)]);
}

#[test]
fn duplicate_copies_every_header() {
    let m = parse_headers(strings(&["A:1", "B:2"]));
    let d = m.duplicate();
    let mut pairs = d.to_pairs();
    pairs.sort();
    assert_eq!(pairs, vec![("A".to_string(), "1".to_string()), ("B".to_string(), "2".to_string())]);
}
