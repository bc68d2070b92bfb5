#![allow(non_snake_case)]

use base64::Engine;
use mcp_tunnel::forward::{
    local_base, send_chunks, send_msg, upstream_request, Forwarding, FrameQueue, Stage,
    UpstreamEvent, CHUNK_SIZE,
};
use mcp_tunnel::headers::RawHeader;
use mcp_tunnel::protocol::{TunnelMessage, TunnelRequest};
use mcp_tunnel::string_map::StringMap;

#[test]
fn send_chunks__splits_at_chunk_size_boundary() {
    let mut tx = FrameQueue::new();
    let body = vec![0u8; CHUNK_SIZE * 2 + 100];
    assert!(send_chunks(&mut tx, "rid", &body));
    let msgs = tx.frames;
    assert_eq!(msgs.len(), 3);
    for m in &msgs {
        match m {
            TunnelMessage::ResponseChunk { id, last, .. } => {
                assert_eq!(id, "rid");
                assert!(!last);
            }
            _ => panic!("expected ResponseChunk"),
        }
    }
}

#[test]
fn send_chunks__empty_bytes_emits_no_frames() {
    let mut tx = FrameQueue::new();
    assert!(send_chunks(&mut tx, "rid", &[]));
    assert!(tx.frames.is_empty());
}

#[test]
fn send_chunks__small_bytes_emit_one_frame_round_trips_base64() {
    let mut tx = FrameQueue::new();
    send_chunks(&mut tx, "rid", b"hello");
    let msgs = tx.frames;
    assert_eq!(msgs.len(), 1);
    let TunnelMessage::ResponseChunk { data, .. } = &msgs[0] else {
        panic!()
    };
    let decoded = base64::engine::general_purpose::STANDARD
        .decode(data)
        .unwrap();
    assert_eq!(decoded, b"hello");
}

#[test]
fn send_msg__returns_false_when_receiver_dropped() {
    let mut tx = FrameQueue::new();
    tx.close();
    let msg = TunnelMessage::Cancel { id: "x".into() };
    assert!(!send_msg(&mut tx, msg));
}

#[test]
fn chunks_are_full_but_for_the_last() {
    for len in [1, CHUNK_SIZE - 1, CHUNK_SIZE, CHUNK_SIZE + 1, 3 * CHUNK_SIZE] {
        let body: Vec<u8> = (0..len).map(|i| (i * 31 % 251) as u8).collect();
        let mut tx = FrameQueue::new();
        assert!(send_chunks(&mut tx, "rid", &body));
        let mut joined = Vec::new();
        for (i, m) in tx.frames.iter().enumerate() {
            let TunnelMessage::ResponseChunk { data, .. } = m else {
                panic!()
            };
            let part = base64::engine::general_purpose::STANDARD.decode(data).unwrap();
            assert!(!part.is_empty());
            if i + 1 < tx.frames.len() {
                assert_eq!(part.len(), CHUNK_SIZE);
            }
            joined.extend(part);
        }
        assert_eq!(joined, body);
        assert_eq!(tx.frames.len(), (len + CHUNK_SIZE - 1) / CHUNK_SIZE);
    }
}

#[test]
fn chunks_for_a_gone_socket() {
    let mut tx = FrameQueue::new();
    tx.close();
    assert!(!send_chunks(&mut tx, "rid", b"x"));
    assert!(send_chunks(&mut tx, "rid", b""));
    assert!(tx.frames.is_empty());
}

fn request(method: &str, body: Option<&str>) -> TunnelRequest {
    let mut headers = StringMap::new();
    headers.insert("host".to_string(), "myapp.example.com".to_string());
    headers.insert("accept".to_string(), "*/*".to_string());
    headers.insert("content-length".to_string(), "5".to_string());
    TunnelRequest {
        id: "rid".to_string(),
        method: method.to_string(),
        path: "/mcp?a=1".to_string(),
        headers,
        body: body.map(|s| s.to_string()),
    }
}

#[test]
fn the_local_server_gets_the_request() {
    let base = local_base(9000);
    assert_eq!(base, "http://localhost:9000");
    let req = request("POST", Some("aGVsbG8="));
    let out = upstream_request(&base, &req.clone());
    assert_eq!(out.method, "POST");
    assert_eq!(out.url, "http://localhost:9000/mcp?a=1");
    assert_eq!(out.headers.len(), 1);
    assert_eq!(out.headers.get("accept"), Some(&"*/*".to_string()));
    assert_eq!(out.body, Some(b"hello".to_vec()));
}

#[test]
fn odd_methods_and_bodies() {
    assert_eq!(upstream_request("b", &request("PURGE", None)).method, "PURGE");
    assert_eq!(upstream_request("b", &request("get", None)).method, "get");
    assert_eq!(upstream_request("b", &request("", None)).method, "GET");
    assert_eq!(upstream_request("b", &request("BAD METHOD", None)).method, "GET");
    assert_eq!(upstream_request("b", &request("GET", None)).body, None);
    assert_eq!(upstream_request("b", &request("GET", Some("aGVsbG8"))).body, None);
    assert_eq!(upstream_request("b", &request("GET", Some("!!"))).body, None);
    assert_eq!(upstream_request("b", &request("GET", Some(""))).body, Some(vec![]));
}

fn head() -> UpstreamEvent {
    UpstreamEvent::Head {
        status: 200,
        headers: vec![
            RawHeader { name: "content-type".to_string(), value: b"text/event-stream".to_vec() },
            RawHeader { name: "transfer-encoding".to_string(), value: b"chunked".to_vec() },
        ],
    }
}

#[test]
fn a_response_is_head_chunks_terminator() {
    let mut tx = FrameQueue::new();
    let mut f = Forwarding::start(&request("GET", None));
    assert!(f.on_upstream(&mut tx, head()));
    assert!(f.on_upstream(&mut tx, UpstreamEvent::Chunk(b"hel".to_vec())));
    assert!(f.on_upstream(&mut tx, UpstreamEvent::Chunk(b"".to_vec())));
    assert!(f.on_upstream(&mut tx, UpstreamEvent::Chunk(b"lo".to_vec())));
    assert!(!f.on_upstream(&mut tx, UpstreamEvent::StreamEnded));
    assert!(f.stage == Stage::Done);
    assert_eq!(tx.frames.len(), 4);
    let TunnelMessage::ResponseHead { id, status, headers } = &tx.frames[0] else {
        panic!()
    };
    assert_eq!(id, "rid");
    assert_eq!(*status, 200);
    assert_eq!(headers.len(), 1);
    assert_eq!(headers.get("content-type"), Some(&"text/event-stream".to_string()));
    let TunnelMessage::ResponseChunk { data, last, .. } = &tx.frames[2] else {
        panic!()
    };
    assert_eq!(data, "bG8=");
    assert!(!last);
    let TunnelMessage::ResponseChunk { id, data, last } = &tx.frames[3] else {
        panic!()
    };
    assert_eq!(id, "rid");
    assert_eq!(data, "");
    assert!(last);
}

#[test]
fn a_broken_body_ends_with_the_terminator_too() {
    let mut tx = FrameQueue::new();
    let mut f = Forwarding::start(&request("GET", None));
    f.on_upstream(&mut tx, head());
    assert!(!f.on_upstream(&mut tx, UpstreamEvent::StreamFailed));
    assert!(matches!(tx.frames.last(), Some(TunnelMessage::ResponseChunk { last: true, .. })));
}

fn single_error(ev: UpstreamEvent) -> String {
    let mut tx = FrameQueue::new();
    let mut f = Forwarding::start(&request("GET", None));
    assert!(!f.on_upstream(&mut tx, ev));
    assert!(!f.on_upstream(&mut tx, head()));
    assert_eq!(tx.frames.len(), 1);
    match &tx.frames[0] {
        TunnelMessage::ResponseError { id, message } => {
            assert_eq!(id, "rid");
            message.clone()
        }
        _ => panic!("expected ResponseError"),
    }
}

#[test]
fn failures_before_the_head_are_single_errors() {
    assert_eq!(
        single_error(UpstreamEvent::SendFailed("connect refused".to_string())),
        "upstream error: connect refused"
    );
    assert_eq!(single_error(UpstreamEvent::HeadersTimeout), "upstream headers timeout");
}

#[test]
fn nothing_follows_a_cancel() {
    let mut tx = FrameQueue::new();
    let mut f = Forwarding::start(&request("GET", None));
    f.on_upstream(&mut tx, head());
    assert!(!f.on_upstream(&mut tx, UpstreamEvent::Cancelled));
    assert!(!f.on_upstream(&mut tx, UpstreamEvent::Chunk(b"x".to_vec())));
    assert!(!f.on_upstream(&mut tx, UpstreamEvent::StreamEnded));
    assert_eq!(tx.frames.len(), 1);

    let mut tx = FrameQueue::new();
    let mut f = Forwarding::start(&request("GET", None));
    assert!(!f.on_upstream(&mut tx, UpstreamEvent::Cancelled));
    assert!(!f.on_upstream(&mut tx, head()));
    assert!(tx.frames.is_empty());
}

#[test]
fn a_gone_socket_ends_the_forwarding() {
    let mut tx = FrameQueue::new();
    let mut f = Forwarding::start(&request("GET", None));
    f.on_upstream(&mut tx, head());
    tx.close();
    assert!(f.on_upstream(&mut tx, UpstreamEvent::Chunk(vec![])));
    assert!(!f.on_upstream(&mut tx, UpstreamEvent::Chunk(b"x".to_vec())));
    assert_eq!(tx.frames.len(), 1);
}
