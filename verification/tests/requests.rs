use mcp_tunnel::forward::{upstream_request, Forwarding, FrameQueue, UpstreamEvent};
use mcp_tunnel::headers::RawHeader;
use mcp_tunnel::protocol::TunnelMessage;
use mcp_tunnel::relay::TunnelRegistry;
use mcp_tunnel::requests::{
    admit_as, admit_request, cancel_frame, path_of, public_head, relay_log, request_subdomain,
    status_color, Admission, DispatchAction, NoHead, PendingRequests, PublicRequest, QueueOutcome,
    StatusColor,
};
use mcp_tunnel::string_map::StringMap;
use mcp_tunnel::tables::InFlight;

fn raw(name: &str, value: &[u8]) -> RawHeader {
    RawHeader { name: name.to_string(), value: value.to_vec() }
}

fn public(host: Option<&str>, body: &[u8]) -> PublicRequest {
    let mut headers = vec![raw("accept", b"*/*"), raw("content-length", b"5")];
    if let Some(h) = host {
        headers.push(raw("host", h.as_bytes()));
    }
    PublicRequest {
        method: "POST".to_string(),
        path: Some("/mcp?x=1".to_string()),
        headers,
        body: body.to_vec(),
    }
}

#[test]
fn requests_are_routed_by_the_first_label_of_the_host() {
    for (host, label) in [
        ("myapp.tunnel.example.com", "myapp"),
        ("myapp.localhost.test:8080", "myapp"),
        ("localhost", "localhost"),
        (".example.com", ""),
        ("", ""),
    ] {
        assert_eq!(request_subdomain(&vec![raw("host", host.as_bytes())]), label);
    }
    assert_eq!(request_subdomain(&vec![]), "");
    assert_eq!(request_subdomain(&vec![raw("host", b"a.\xff"), raw("host", b"b.c")]), "");
    assert_eq!(request_subdomain(&vec![raw("x", b"a.b"), raw("host", b"b.c")]), "b");
    assert_eq!(request_subdomain(&vec![raw("Host", b"a.b"), raw("host", b"b.c")]), "a");
}

#[test]
fn requests_without_a_tunnel_are_refused() {
    let registry = TunnelRegistry::new();
    let a = admit_as(&registry, &public(None, b""), "id".to_string());
    let Admission::Refuse { subdomain, reply } = a else { panic!() };
    assert_eq!(subdomain, "-");
    assert_eq!(reply.status, 400);
    assert_eq!(reply.message, "missing host header");
    let a = admit_request(&registry, &public(Some("myapp.x"), b""));
    let Admission::Refuse { subdomain, reply } = a else { panic!() };
    assert_eq!(subdomain, "myapp");
    assert_eq!(reply.status, 502);
    assert_eq!(reply.message, "tunnel not found");
}

#[test]
fn a_request_goes_to_the_tunnel_and_arrives_whole() {
    let mut registry = TunnelRegistry::new();
    registry.register("myapp".to_string(), 7);
    let a = admit_as(&registry, &public(Some("myapp.x"), b"hello"), "id1".to_string());
    let Admission::Forward { subdomain, conn, request } = a else { panic!() };
    assert_eq!(subdomain, "myapp");
    assert_eq!(conn, 7);
    assert_eq!(request.id, "id1");
    assert_eq!(request.method, "POST");
    assert_eq!(request.path, "/mcp?x=1");
    assert_eq!(request.headers.len(), 2);
    assert_eq!(request.headers.get("host"), Some(&"myapp.x".to_string()));
    assert_eq!(request.body.as_deref(), Some("aGVsbG8="));
    let up = upstream_request("http://localhost:9000", &request);
    assert_eq!(up.method, "POST");
    assert_eq!(up.url, "http://localhost:9000/mcp?x=1");
    assert_eq!(up.headers.len(), 1);
    assert_eq!(up.body, Some(b"hello".to_vec()));

    let mut req = public(Some("myapp.x"), b"");
    req.path = None;
    assert_eq!(path_of(&req), "/");
    let Admission::Forward { request, .. } = admit_as(&registry, &req, "id2".to_string()) else {
        panic!()
    };
    assert_eq!(request.path, "/");
    assert_eq!(request.body, None);
}

#[test]
fn ids_are_random_uuids() {
    let mut registry = TunnelRegistry::new();
    registry.register("myapp".to_string(), 7);
    let mut ids: Vec<String> = Vec::new();
    for _ in 0..20 {
        let Admission::Forward { request, .. } =
            admit_request(&registry, &public(Some("myapp.x"), b""))
        else {
            panic!()
        };
        let id = request.id;
        assert_eq!(id.len(), 36);
        for (i, c) in id.chars().enumerate() {
            match i {
                8 | 13 | 18 | 23 => assert_eq!(c, '-'),
                14 => assert_eq!(c, '4'),
                19 => assert!("89ab".contains(c)),
                _ => assert!("0123456789abcdef".contains(c)),
            }
        }
        assert!(!ids.contains(&id));
        ids.push(id);
    }
}

fn head(id: &str) -> TunnelMessage {
    let mut headers = StringMap::new();
    headers.insert("content-type".to_string(), "text/plain".to_string());
    TunnelMessage::ResponseHead { id: id.to_string(), status: 200, headers }
}

fn chunk(id: &str, data: &str, last: bool) -> TunnelMessage {
    TunnelMessage::ResponseChunk { id: id.to_string(), data: data.to_string(), last }
}

fn error(id: &str) -> TunnelMessage {
    TunnelMessage::ResponseError { id: id.to_string(), message: "refused".to_string() }
}

#[test]
fn a_response_streams_to_its_request() {
    let mut p = PendingRequests::new(Some(10 * 1024 * 1024));
    p.await_head("a", 1);
    p.await_head("b", 2);
    let DispatchAction::DeliverHead { head: h, body, status, headers } =
        p.dispatch_frame(head("a"), 10)
    else {
        panic!()
    };
    assert_eq!((h, body, status), (1, 10, 200));
    assert_eq!(headers.get("content-type"), Some(&"text/plain".to_string()));
    let DispatchAction::Push { body, id, bytes, last } =
        p.dispatch_frame(chunk("a", "aGVsbG8=", false), 11)
    else {
        panic!()
    };
    assert_eq!(body, 10);
    assert_eq!(id, "a");
    assert_eq!(bytes, b"hello");
    assert!(!last);
    let (released, cancel) = p.on_pushed("a", false, true);
    assert!(released.is_none());
    assert!(cancel.is_none());
    assert!(matches!(p.dispatch_frame(chunk("a", "", true), 12), DispatchAction::Release(10)));
    assert!(matches!(p.dispatch_frame(chunk("a", "eA==", true), 13), DispatchAction::Ignore));
    assert!(matches!(p.dispatch_frame(head("a"), 13), DispatchAction::Ignore));
    assert!(matches!(p.dispatch_frame(error("a"), 13), DispatchAction::Ignore));
    assert!(matches!(
        p.dispatch_frame(head("b"), 14),
        DispatchAction::DeliverHead { head: 2, body: 14, .. }
    ));
}

#[test]
fn a_last_chunk_with_data_ends_the_response_too() {
    let mut p = PendingRequests::new(Some(10 * 1024 * 1024));
    p.await_head("a", 1);
    p.dispatch_frame(head("a"), 10);
    assert!(matches!(
        p.dispatch_frame(chunk("a", "eA==", true), 0),
        DispatchAction::Push { last: true, .. }
    ));
    let (released, cancel) = p.on_pushed("a", true, true);
    assert!(released == Some(InFlight::Streaming { body: 10, passed: 1 }));
    assert!(cancel.is_none());
    assert!(matches!(p.dispatch_frame(chunk("a", "eA==", false), 0), DispatchAction::Ignore));
}

#[test]
fn chunks_before_the_head_and_malformed_chunks() {
    let mut p = PendingRequests::new(Some(10 * 1024 * 1024));
    p.await_head("a", 1);
    assert!(matches!(p.dispatch_frame(chunk("a", "eA==", true), 0), DispatchAction::Ignore));
    assert!(matches!(p.dispatch_frame(head("a"), 10), DispatchAction::DeliverHead { .. }));
    assert!(matches!(p.dispatch_frame(chunk("a", "!", false), 0), DispatchAction::Ignore));
    assert!(matches!(p.dispatch_frame(chunk("a", "", false), 0), DispatchAction::Ignore));
    assert!(matches!(p.dispatch_frame(chunk("a", "!", true), 0), DispatchAction::Release(10)));
}

#[test]
fn a_second_head_ends_the_body() {
    let mut p = PendingRequests::new(Some(10 * 1024 * 1024));
    p.await_head("a", 1);
    p.dispatch_frame(head("a"), 10);
    assert!(matches!(p.dispatch_frame(head("a"), 11), DispatchAction::Release(10)));
    assert!(matches!(p.dispatch_frame(chunk("a", "eA==", true), 0), DispatchAction::Ignore));
}

#[test]
fn errors_of_the_client() {
    let mut p = PendingRequests::new(Some(10 * 1024 * 1024));
    p.await_head("a", 1);
    let DispatchAction::SynthesizeHead { head: h, status, message } =
        p.dispatch_frame(error("a"), 0)
    else {
        panic!()
    };
    assert_eq!((h, status), (1, 502));
    assert_eq!(message, "upstream error: refused");
    assert!(matches!(p.dispatch_frame(error("a"), 0), DispatchAction::Ignore));

    p.await_head("b", 2);
    p.dispatch_frame(head("b"), 20);
    let DispatchAction::FailBody { body, message, cancel } = p.dispatch_frame(error("b"), 0) else {
        panic!()
    };
    assert_eq!(body, 20);
    assert!(cancel.is_none());
    assert_eq!(message, "refused");
}

#[test]
fn a_gone_public_client_cancels_once() {
    let mut p = PendingRequests::new(Some(10 * 1024 * 1024));
    p.await_head("a", 1);
    p.dispatch_frame(head("a"), 10);
    let (released, cancel) = p.on_pushed("a", false, false);
    assert!(released == Some(InFlight::Streaming { body: 10, passed: 0 }));
    assert!(matches!(cancel, Some(TunnelMessage::Cancel { id }) if id == "a"));
    let (released, cancel) = p.on_pushed("a", false, false);
    assert!(released.is_none());
    assert!(cancel.is_none());
    assert!(matches!(p.dispatch_frame(chunk("a", "eA==", false), 0), DispatchAction::Ignore));
}

#[test]
fn frames_sent_the_wrong_direction_are_ignored() {
    let mut p = PendingRequests::new(Some(10 * 1024 * 1024));
    p.await_head("a", 1);
    assert!(matches!(p.dispatch_frame(cancel_frame("a"), 0), DispatchAction::Ignore));
    let mut registry = TunnelRegistry::new();
    registry.register("myapp".to_string(), 7);
    let a = admit_as(&registry, &public(Some("myapp.x"), b""), "a".to_string());
    let Admission::Forward { request, .. } = a else { panic!() };
    assert!(matches!(
        p.dispatch_frame(TunnelMessage::Request(request), 0),
        DispatchAction::Ignore
    ));
    assert!(matches!(p.dispatch_frame(head("a"), 10), DispatchAction::DeliverHead { .. }));
}

#[test]
fn requests_that_cannot_be_handed_on() {
    let mut p = PendingRequests::new(Some(10 * 1024 * 1024));
    p.await_head("a", 1);
    assert!(p.on_queued("a", QueueOutcome::Queued).is_none());
    let reply = p.on_queued("a", QueueOutcome::Full).unwrap();
    assert_eq!((reply.status, reply.message.as_str()), (503, "tunnel overloaded"));
    assert!(matches!(p.dispatch_frame(head("a"), 0), DispatchAction::Ignore));
    p.await_head("b", 1);
    let reply = p.on_queued("b", QueueOutcome::Closed).unwrap();
    assert_eq!((reply.status, reply.message.as_str()), (502, "tunnel disconnected"));
    assert!(matches!(p.dispatch_frame(head("b"), 0), DispatchAction::Ignore));
}

#[test]
fn requests_without_a_head() {
    let mut p = PendingRequests::new(Some(10 * 1024 * 1024));
    p.await_head("a", 1);
    let (released, reply, cancel) = p.on_no_head("a", NoHead::Dropped);
    assert!(released == Some(InFlight::AwaitingHead(1)));
    assert_eq!((reply.status, reply.message.as_str()), (502, "tunnel dropped request"));
    assert!(cancel.is_none());
    p.await_head("b", 1);
    p.dispatch_frame(head("b"), 9);
    let (released, reply, cancel) = p.on_no_head("b", NoHead::TimedOut);
    assert!(released == Some(InFlight::Streaming { body: 9, passed: 0 }));
    assert_eq!((reply.status, reply.message.as_str()), (504, "tunnel headers timeout"));
    assert!(matches!(cancel, Some(TunnelMessage::Cancel { id }) if id == "b"));
    assert!(matches!(p.dispatch_frame(head("b"), 0), DispatchAction::Ignore));
}

#[test]
fn what_the_client_sends_the_relay_hands_on() {
    let mut registry = TunnelRegistry::new();
    registry.register("myapp".to_string(), 7);
    let a = admit_as(&registry, &public(Some("myapp.x"), b""), "rid".to_string());
    let Admission::Forward { request, .. } = a else { panic!() };
    let mut tx = FrameQueue::new();
    let mut f = Forwarding::start(&request);
    let body: Vec<u8> = (0..200_000usize).map(|i| (i * 7 % 253) as u8).collect();
    f.on_upstream(&mut tx, UpstreamEvent::Head { status: 201, headers: vec![raw("etag", b"e")] });
    for part in body.chunks(70_000) {
        f.on_upstream(&mut tx, UpstreamEvent::Chunk(part.to_vec()));
    }
    f.on_upstream(&mut tx, UpstreamEvent::StreamEnded);

    let mut p = PendingRequests::new(Some(10 * 1024 * 1024));
    p.await_head("rid", 1);
    let mut got: Vec<u8> = Vec::new();
    let mut heads = 0;
    let mut released = 0;
    for frame in tx.frames {
        match p.dispatch_frame(frame, 5) {
            DispatchAction::DeliverHead { head, body, status, headers } => {
                assert_eq!((head, body, status), (1, 5, 201));
                assert_eq!(headers.get("etag"), Some(&"e".to_string()));
                heads += 1;
            }
            DispatchAction::Push { body, id, bytes, last } => {
                assert_eq!(body, 5);
                got.extend(bytes);
                p.on_pushed(&id, last, true);
            }
            DispatchAction::Release(body) => {
                assert_eq!(body, 5);
                released += 1;
            }
            _ => panic!("unexpected action"),
        }
    }
    assert_eq!(heads, 1);
    assert_eq!(released, 1);
    assert_eq!(got, body);
}

#[test]
fn interleaved_responses_do_not_mix() {
    let mut p = PendingRequests::new(Some(10 * 1024 * 1024));
    p.await_head("a", 1);
    p.await_head("b", 2);
    let frames = vec![
        (head("a"), 10),
        (chunk("a", "YTE=", false), 11),
        (head("b"), 12),
        (chunk("b", "YjE=", false), 13),
        (chunk("a", "YTI=", false), 14),
        (error("c"), 15),
        (chunk("a", "", true), 16),
        (chunk("b", "YjI=", true), 17),
    ];
    let mut to_a: Vec<u8> = Vec::new();
    let mut to_b: Vec<u8> = Vec::new();
    for (frame, fresh) in frames {
        if let DispatchAction::Push { body, id, bytes, last } = p.dispatch_frame(frame, fresh) {
            match body {
                10 => to_a.extend(bytes),
                12 => to_b.extend(bytes),
                _ => panic!("unexpected body"),
            }
            p.on_pushed(&id, last, true);
        }
    }
    assert_eq!(to_a, b"a1a2");
    assert_eq!(to_b, b"b1b2");
    assert!(matches!(p.dispatch_frame(head("a"), 20), DispatchAction::Ignore));
    assert!(matches!(p.dispatch_frame(head("b"), 21), DispatchAction::Ignore));
}

#[test]
fn a_body_may_be_as_long_as_the_limit() {
    let mut p = PendingRequests::new(Some(5));
    p.await_head("a", 1);
    p.dispatch_frame(head("a"), 10);
    assert!(matches!(
        p.dispatch_frame(chunk("a", "aGVs", false), 0),
        DispatchAction::Push { bytes, .. } if bytes == b"hel"
    ));
    p.on_pushed("a", false, true);
    assert!(matches!(
        p.dispatch_frame(chunk("a", "bG8=", false), 0),
        DispatchAction::Push { bytes, .. } if bytes == b"lo"
    ));
    p.on_pushed("a", false, true);
    assert!(matches!(p.dispatch_frame(chunk("a", "", true), 0), DispatchAction::Release(10)));
}

#[test]
fn a_longer_body_breaks_off() {
    let mut p = PendingRequests::new(Some(5));
    p.await_head("a", 1);
    p.await_head("b", 2);
    p.dispatch_frame(head("a"), 10);
    p.dispatch_frame(head("b"), 11);
    for id in ["a", "b"] {
        p.dispatch_frame(chunk(id, "aGVs", false), 0);
        p.on_pushed(id, false, true);
    }
    let DispatchAction::FailBody { body, message, cancel } =
        p.dispatch_frame(chunk("a", "bG8h", false), 0)
    else {
        panic!()
    };
    assert_eq!(body, 10);
    assert_eq!(message, "response body too large");
    assert!(matches!(cancel, Some(TunnelMessage::Cancel { id }) if id == "a"));
    assert!(matches!(p.dispatch_frame(chunk("a", "bA==", false), 0), DispatchAction::Ignore));
    assert!(matches!(p.dispatch_frame(chunk("a", "", true), 0), DispatchAction::Ignore));
    assert!(matches!(
        p.dispatch_frame(chunk("b", "bG8=", true), 0),
        DispatchAction::Push { body: 11, last: true, .. }
    ));
}

#[test]
fn without_a_limit_a_body_of_any_length_passes() {
    let mut p = PendingRequests::new(None);
    p.await_head("a", 1);
    p.dispatch_frame(head("a"), 10);
    let zeros = "AAAA".repeat(1024 * 1024);
    let mut got = 0;
    for _ in 0..4 {
        let DispatchAction::Push { body, bytes, .. } =
            p.dispatch_frame(chunk("a", &zeros, false), 0)
        else {
            panic!()
        };
        assert_eq!(body, 10);
        got += bytes.len();
        p.on_pushed("a", false, true);
    }
    assert!(got > 10 * 1024 * 1024);
    assert!(matches!(p.dispatch_frame(chunk("a", "", true), 0), DispatchAction::Release(10)));
}

#[test]
fn a_limit_of_zero_lets_empty_bodies_pass() {
    let mut p = PendingRequests::new(Some(0));
    p.await_head("a", 1);
    p.dispatch_frame(head("a"), 10);
    assert!(matches!(p.dispatch_frame(chunk("a", "", true), 0), DispatchAction::Release(10)));
    p.await_head("b", 1);
    p.dispatch_frame(head("b"), 11);
    assert!(matches!(
        p.dispatch_frame(chunk("b", "bA==", true), 0),
        DispatchAction::FailBody { body: 11, .. }
    ));
}

#[test]
fn heads_of_public_responses() {
    let mut headers = StringMap::new();
    headers.insert("Content-Type".to_string(), "text/plain".to_string());
    headers.insert("connection".to_string(), "close".to_string());
    let h = public_head(204, &headers);
    assert_eq!(h.status, 204);
    assert_eq!(h.headers, vec![("content-type".to_string(), "text/plain".to_string())]);
    assert_eq!(public_head(100, &headers).status, 100);
    assert_eq!(public_head(999, &headers).status, 999);
    assert_eq!(public_head(99, &headers).status, 502);
    assert_eq!(public_head(1000, &headers).status, 502);
    assert_eq!(public_head(0, &headers).status, 502);
}

#[test]
fn log_lines() {
    let line = relay_log("2026-01-02 03:04:05", "myapp", "GET", "/mcp", "200", 12);
    assert_eq!(line, "  2026-01-02 03:04:05  myapp  GET /mcp  -> 200  12ms");
    assert!(status_color(200) == StatusColor::Green);
    assert!(status_color(299) == StatusColor::Green);
    assert!(status_color(300) == StatusColor::Yellow);
    assert!(status_color(399) == StatusColor::Yellow);
    assert!(status_color(400) == StatusColor::Red);
    assert!(status_color(502) == StatusColor::Red);
}
