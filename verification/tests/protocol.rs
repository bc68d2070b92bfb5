#![allow(non_snake_case)]

use mcp_tunnel::protocol::is_hop_by_hop;

#[test]
fn is_hop_by_hop__flags_all_rfc7230_headers() {
    for h in [
        "connection",
        "keep-alive",
        "proxy-authenticate",
        "proxy-authorization",
        "te",
        "trailer",
        "transfer-encoding",
        "upgrade",
    ] {
        assert!(is_hop_by_hop(h), "{h} should be hop-by-hop");
    }
}

#[test]
fn is_hop_by_hop__flags_content_length() {
    assert!(is_hop_by_hop("content-length"));
}

#[test]
fn is_hop_by_hop__is_case_insensitive() {
    assert!(is_hop_by_hop("Transfer-Encoding"));
    assert!(is_hop_by_hop("TRANSFER-ENCODING"));
    assert!(is_hop_by_hop("Content-Length"));
}

#[test]
fn is_hop_by_hop__allows_end_to_end_headers() {
    for h in [
        "content-type",
        "content-encoding",
        "cache-control",
        "mcp-session-id",
        "authorization",
        "host",
        "accept",
        "user-agent",
        "set-cookie",
    ] {
        assert!(!is_hop_by_hop(h), "{h} should NOT be hop-by-hop");
    }
}

#[test]
fn is_hop_by_hop__rejects_empty() {
    assert!(!is_hop_by_hop(""));
}
