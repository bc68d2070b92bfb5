use mcp_tunnel::headers::{carry_headers, public_headers, upstream_headers, visible_text, RawHeader};
use mcp_tunnel::string_map::StringMap;

fn raw(name: &str, value: &[u8]) -> RawHeader {
    RawHeader { name: name.to_string(), value: value.to_vec() }
}

fn map(pairs: &[(&str, &str)]) -> StringMap<String> {
    let mut m = StringMap::new();
    for (k, v) in pairs {
        m.insert(k.to_string(), v.to_string());
    }
    m
}

#[test]
fn a_map_keeps_the_last_value_of_a_name() {
    let m = map(&[("a", "1"), ("b", "2"), ("a", "3")]);
    assert_eq!(m.len(), 2);
    assert!(!m.is_empty());
    assert_eq!(m.get("a"), Some(&"3".to_string()));
    assert_eq!(m.get("b"), Some(&"2".to_string()));
    assert_eq!(m.get("c"), None);
    let copy = m.clone();
    assert_eq!(copy.get("a"), Some(&"3".to_string()));
}

#[test]
fn only_visible_values_are_text() {
    assert_eq!(visible_text(&b"text/plain\t1".to_vec()), Some("text/plain\t1".to_string()));
    assert_eq!(visible_text(&b"".to_vec()), Some(String::new()));
    assert_eq!(visible_text(&b"caf\xc3\xa9".to_vec()), None);
    assert_eq!(visible_text(&b"a\x7f".to_vec()), None);
    assert_eq!(visible_text(&b"a\nb".to_vec()), None);
}

#[test]
fn visible_text_agrees_with_header_values() {
    for b in 0..=255u8 {
        if let Ok(v) = axum::http::HeaderValue::from_bytes(&[b]) {
            let want = v.to_str().ok().map(|s| s.to_string());
            assert_eq!(visible_text(&vec![b]), want, "{b}");
        }
    }
}

#[test]
fn the_tunnel_carries_the_last_text_of_end_to_end_headers() {
    let list = vec![
        raw("accept", b"a"),
        raw("connection", b"close"),
        raw("accept", b"b"),
        raw("accept", b"\xff"),
        raw("x-bin", b"\xff"),
        raw("host", b"h"),
    ];
    let m = carry_headers(&list);
    assert_eq!(m.len(), 2);
    assert_eq!(m.get("accept"), Some(&"b".to_string()));
    assert_eq!(m.get("host"), Some(&"h".to_string()));
}

#[test]
fn the_local_server_gets_neither_host_nor_hop_by_hop_headers() {
    let m = upstream_headers(&map(&[
        ("Host", "h"),
        ("accept", "a"),
        ("Transfer-Encoding", "chunked"),
        ("x-y", "z"),
    ]));
    assert_eq!(m.len(), 2);
    assert_eq!(m.get("accept"), Some(&"a".to_string()));
    assert_eq!(m.get("x-y"), Some(&"z".to_string()));
}

#[test]
fn the_public_client_gets_well_formed_end_to_end_headers() {
    let list = public_headers(&map(&[
        ("Content-Type", "text/event-stream"),
        ("Content-Length", "5"),
        ("bad name", "v"),
        ("", "v"),
        ("x-newline", "a\nb"),
        ("x-tab", "a\tb"),
        ("x-utf8", "é"),
        ("x-del", "a\u{7f}"),
    ]));
    let want = vec![
        ("content-type".to_string(), "text/event-stream".to_string()),
        ("x-tab".to_string(), "a\tb".to_string()),
        ("x-utf8".to_string(), "é".to_string()),
    ];
    assert_eq!(list, want);
}

#[test]
fn every_token_character_may_stand_in_a_name() {
    for n in 0..=0x17Fu32 {
        if let Some(c) = char::from_u32(n) {
            let name = format!("x{c}");
            let passes = !public_headers(&map(&[(name.as_str(), "v")])).is_empty();
            let token = c.is_ascii_alphanumeric() || "!#$%&'*+-.^_`|~".contains(c);
            assert_eq!(passes, token, "{c:?}");
        }
    }
}
