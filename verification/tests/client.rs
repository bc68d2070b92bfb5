use mcp_tunnel::client::{
    on_relay_event, pick_subdomain, read_answer, register_request, register_url, HandshakeStep,
    PickStep, RelayEvent, SessionAction, SessionEvent, TunnelSession, TunnelStatusCallback,
    EVICTED_CODE,
};
use mcp_tunnel::protocol::{RegisterAck, SubdomainOffer, TunnelMessage, TunnelRequest};
use mcp_tunnel::string_map::StringMap;

fn texts(list: &[&str]) -> Vec<String> {
    list.iter().map(|s| s.to_string()).collect()
}

#[test]
fn registration_urls() {
    for (relay, url) in [
        ("https://tunnel.example.com", "wss://tunnel.example.com/_tunnel/register"),
        ("https://tunnel.example.com//", "wss://tunnel.example.com/_tunnel/register"),
        ("http://localhost:8080", "ws://localhost:8080/_tunnel/register"),
        ("ws://localhost:8080/", "ws://localhost:8080/_tunnel/register"),
        ("wss://x/base", "wss://x/base/_tunnel/register"),
        ("tunnel.example.com", "wss://tunnel.example.com/_tunnel/register"),
        ("", "wss:///_tunnel/register"),
    ] {
        assert_eq!(register_url(relay), url);
    }
}

#[test]
fn the_first_frame() {
    let reg = register_request("tok_abc", Some("myapp"));
    assert_eq!(reg.token, "tok_abc");
    assert_eq!(reg.subdomain.as_deref(), Some("myapp"));
    assert_eq!(register_request("tok_abc", None).subdomain, None);
}

#[test]
fn the_only_concrete_subdomain_is_picked() {
    assert!(matches!(pick_subdomain(&texts(&["myapp"])), PickStep::Picked(s) if s == "myapp"));
    assert!(matches!(
        pick_subdomain(&vec![]),
        PickStep::Fail(why) if why == "No subdomains available for this token"
    ));
}

#[test]
fn otherwise_the_user_is_asked() {
    let PickStep::Ask(prompt) = pick_subdomain(&texts(&["myapp", "myapp-*"])) else {
        panic!()
    };
    assert_eq!(
        prompt,
        "\nAvailable subdomains:\n  [1] myapp\n  [2] myapp-*\nPick a subdomain (number or name): "
    );
    assert!(matches!(pick_subdomain(&texts(&["*"])), PickStep::Ask(_)));
}

#[test]
fn answers() {
    let list = texts(&["myapp", "myapp-*"]);
    assert_eq!(read_answer(&list, " 1 \n"), Ok("myapp".to_string()));
    assert_eq!(read_answer(&list, "+1\n"), Ok("myapp".to_string()));
    assert_eq!(
        read_answer(&list, "2\n"),
        Err("'myapp-*' is a wildcard pattern - enter a concrete subdomain name instead".to_string())
    );
    assert_eq!(read_answer(&list, "3\n"), Ok("3".to_string()));
    assert_eq!(read_answer(&list, "0\n"), Ok("0".to_string()));
    assert_eq!(read_answer(&list, "  myapp-dev\r\n"), Ok("myapp-dev".to_string()));
    assert_eq!(read_answer(&list, "\n"), Ok(String::new()));
}

fn failure(ev: RelayEvent) -> String {
    match on_relay_event(ev) {
        HandshakeStep::Fail(why) => why,
        _ => panic!("expected a failure"),
    }
}

#[test]
fn answers_of_the_relay() {
    let ack = RegisterAck { subdomain: "myapp".to_string(), url: "https://myapp.x".to_string() };
    let offer = SubdomainOffer { subdomains: texts(&["a", "b"]) };
    let step = on_relay_event(RelayEvent::Text { ack: Some(ack), offer: Some(offer) });
    assert!(matches!(step, HandshakeStep::Connected(ack) if ack.url == "https://myapp.x"));

    let offer = SubdomainOffer { subdomains: texts(&["a"]) };
    let step = on_relay_event(RelayEvent::Text { ack: None, offer: Some(offer) });
    assert!(matches!(step, HandshakeStep::Answer(pick) if pick.subdomain == "a"));

    let offer = SubdomainOffer { subdomains: texts(&["a", "b"]) };
    let step = on_relay_event(RelayEvent::Text { ack: None, offer: Some(offer) });
    let HandshakeStep::Ask { subdomains, prompt } = step else { panic!() };
    assert_eq!(subdomains, texts(&["a", "b"]));
    assert!(prompt.contains("[2] b"));

    let offer = SubdomainOffer { subdomains: vec![] };
    assert_eq!(
        failure(RelayEvent::Text { ack: None, offer: Some(offer) }),
        "No subdomains available for this token"
    );
    let step = on_relay_event(RelayEvent::Text { ack: None, offer: None });
    assert!(matches!(step, HandshakeStep::Wait));
    assert!(matches!(on_relay_event(RelayEvent::Other), HandshakeStep::Wait));
    assert_eq!(
        failure(RelayEvent::Close(Some("invalid token".to_string()))),
        "Authentication failed: invalid token"
    );
    assert_eq!(
        failure(RelayEvent::Close(None)),
        "Authentication failed: relay closed connection"
    );
    assert_eq!(failure(RelayEvent::Failed("reset".to_string())), "WebSocket error: reset");
    assert_eq!(failure(RelayEvent::Ended), "Relay closed connection before ack");
}

fn request(id: &str) -> SessionEvent {
    SessionEvent::Text(Some(TunnelMessage::Request(TunnelRequest {
        id: id.to_string(),
        method: "GET".to_string(),
        path: "/".to_string(),
        headers: StringMap::new(),
        body: None,
    })))
}

fn cancel(id: &str) -> SessionEvent {
    SessionEvent::Text(Some(TunnelMessage::Cancel { id: id.to_string() }))
}

#[test]
fn a_cancel_stops_its_task_once() {
    let mut s = TunnelSession::new();
    assert!(matches!(s.on_event(request("a"), 1), SessionAction::Spawn(req) if req.id == "a"));
    assert!(matches!(s.on_event(request("b"), 2), SessionAction::Spawn(_)));
    assert!(matches!(s.on_event(cancel("a"), 3), SessionAction::CancelTask(1)));
    assert!(matches!(s.on_event(cancel("a"), 3), SessionAction::Continue));
    s.finished("b");
    assert!(matches!(s.on_event(cancel("b"), 3), SessionAction::Continue));
}

#[test]
fn frames_for_the_relay_are_ignored() {
    let mut s = TunnelSession::new();
    s.on_event(request("a"), 1);
    let chunk = TunnelMessage::ResponseChunk {
        id: "a".to_string(),
        data: String::new(),
        last: true,
    };
    assert!(matches!(s.on_event(SessionEvent::Text(Some(chunk)), 2), SessionAction::Continue));
    assert!(matches!(s.on_event(SessionEvent::Text(None), 2), SessionAction::Continue));
    assert!(matches!(s.on_event(SessionEvent::Other, 2), SessionAction::Continue));
    assert!(matches!(s.on_event(cancel("a"), 2), SessionAction::CancelTask(1)));
}

#[test]
fn the_end_of_a_tunnel() {
    let mut s = TunnelSession::new();
    assert!(matches!(s.on_event(SessionEvent::Close(Some(1000)), 0), SessionAction::Continue));
    assert!(matches!(s.on_event(SessionEvent::Close(None), 0), SessionAction::Continue));
    assert!(matches!(s.on_event(SessionEvent::Close(Some(4002)), 0), SessionAction::Evicted));
    assert!(matches!(s.on_event(SessionEvent::Ended, 0), SessionAction::Continue));
    assert!(matches!(s.on_event(request("a"), 0), SessionAction::Continue));
    assert_eq!(EVICTED_CODE, 4002);

    let mut s = TunnelSession::new();
    s.on_event(request("a"), 1);
    assert!(matches!(s.on_event(SessionEvent::Ended, 0), SessionAction::Disconnected));
    s.finished("a");
    assert!(matches!(s.on_event(SessionEvent::Close(Some(4002)), 0), SessionAction::Continue));
    assert!(matches!(s.on_event(SessionEvent::Ended, 0), SessionAction::Continue));
}

struct Silent;

impl TunnelStatusCallback for Silent {
    fn on_connected(&self, url: &str) {
        assert_eq!(url, "https://myapp.x");
    }
    fn on_disconnected(&self) {}
    fn on_evicted(&self) {}
}

#[test]
fn status_callbacks_are_implemented_by_users() {
    let status: Box<dyn TunnelStatusCallback> = Box::new(Silent);
    status.on_connected("https://myapp.x");
    status.on_disconnected();
    status.on_evicted();
}
