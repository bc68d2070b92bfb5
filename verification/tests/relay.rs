use mcp_tunnel::auth::{verify_token, AuthProviderConfig, VerifyReply};
use mcp_tunnel::config::RelayConfig;
use mcp_tunnel::protocol::{RegisterRequest, SubdomainPick};
use mcp_tunnel::relay::{
    acknowledge, build_relay_app, evicted_reason, register_step, resolve_subdomain,
    digest_to_subdomain, token_to_subdomain, AuthMode, Registration, RegistrationAction, RegistrationEvent,
    TunnelRegistry, REJECTED_CODE,
};
use mcp_tunnel::string_map::StringMap;

const BASE: &str = "tunnel.example.com";

fn texts(list: &[&str]) -> Vec<String> {
    list.iter().map(|s| s.to_string()).collect()
}

fn tokens(entries: &[(&str, &[&str])]) -> StringMap<Vec<String>> {
    let mut m = StringMap::new();
    for (token, subs) in entries {
        m.insert(token.to_string(), texts(subs));
    }
    m
}

fn config() -> RelayConfig {
    RelayConfig {
        port: 8080,
        relay_domain: BASE.to_string(),
        auth_provider: None,
        auth_provider_secret: None,
        tokens: StringMap::new(),
        max_request_body_size: None,
        max_response_body_size: None,
    }
}

#[test]
fn the_auth_mode_follows_from_the_configuration() {
    let app = build_relay_app(config());
    assert!(matches!(app.auth, AuthMode::Open));
    assert_eq!(app.base_domain, BASE);
    assert_eq!(app.max_body, 5 * 1024 * 1024);
    assert_eq!(app.max_response_body, None);
    assert_eq!(app.port, 8080);

    let mut cfg = config();
    cfg.auth_provider = Some("https://api.example.com//".to_string());
    cfg.auth_provider_secret = Some("s3".to_string());
    cfg.max_request_body_size = Some(7);
    cfg.max_response_body_size = Some(9);
    let app = build_relay_app(cfg);
    let AuthMode::Provider(auth) = app.auth else { panic!() };
    assert_eq!(auth.url, "https://api.example.com");
    assert_eq!(auth.secret, "s3");
    assert_eq!(app.max_body, 7);
    assert_eq!(app.max_response_body, Some(9));

    let mut cfg = config();
    cfg.auth_provider = Some("https://api.example.com".to_string());
    cfg.tokens = tokens(&[("t", &["a"])]);
    let AuthMode::Static(map) = build_relay_app(cfg).auth else { panic!() };
    assert_eq!(map.len(), 1);
}

#[test]
fn subdomains_are_hashed_from_tokens() {
    assert_eq!(token_to_subdomain(""), "e3b0c44298fc");
    assert_eq!(token_to_subdomain("abc"), "ba7816bf8f01");
    assert_eq!(token_to_subdomain("tok_abc"), "26cfed5080d0");
    assert_eq!(token_to_subdomain("t\u{f6}ken"), "6df7bbf3053f");
}

#[test]
fn subdomains_of_digests() {
    let digest = vec![0x00, 0x0f, 0xa0, 0xff, 0x12, 0x9c, 0x77];
    assert_eq!(digest_to_subdomain(&digest), "000fa0ff129c");
}

#[test]
fn acknowledgements_carry_the_public_url() {
    let ack = acknowledge("myapp".to_string(), BASE);
    assert_eq!(ack.subdomain, "myapp");
    assert_eq!(ack.url, "https://myapp.tunnel.example.com");
}

#[test]
fn subdomains_without_asking() {
    let wish = |s: &str| Some(s.to_string());
    let list = texts(&["myapp", "myapp-*"]);
    assert_eq!(resolve_subdomain(&wish("myapp-dev"), &list), wish("myapp-dev"));
    assert_eq!(resolve_subdomain(&wish("other"), &list), None);
    assert_eq!(resolve_subdomain(&None, &list), None);
    assert_eq!(resolve_subdomain(&wish("other"), &texts(&["myapp"])), wish("myapp"));
    assert_eq!(resolve_subdomain(&None, &texts(&["myapp"])), wish("myapp"));
    assert_eq!(resolve_subdomain(&None, &texts(&["*"])), None);
    assert_eq!(resolve_subdomain(&None, &vec![]), None);
}

fn hello(token: &str, subdomain: Option<&str>) -> RegistrationEvent {
    RegistrationEvent::Text {
        register: Some(RegisterRequest {
            token: token.to_string(),
            subdomain: subdomain.map(|s| s.to_string()),
        }),
        pick: None,
    }
}

fn pick(subdomain: &str) -> RegistrationEvent {
    RegistrationEvent::Text {
        register: None,
        pick: Some(SubdomainPick { subdomain: subdomain.to_string() }),
    }
}

fn accepted(action: RegistrationAction) -> String {
    match action {
        RegistrationAction::Accept(ack) => {
            assert_eq!(ack.url, format!("https://{}.{BASE}", ack.subdomain));
            ack.subdomain
        }
        _ => panic!("expected an acceptance"),
    }
}

fn rejected(action: RegistrationAction) -> String {
    match action {
        RegistrationAction::Reject(reason) => reason,
        _ => panic!("expected a rejection"),
    }
}

#[test]
fn an_open_relay_takes_everyone() {
    let auth = AuthMode::Open;
    let (state, action) =
        register_step(&auth, BASE, Registration::AwaitingRequest, hello("any", Some("myapp")));
    assert!(matches!(state, Registration::Done));
    assert_eq!(accepted(action), "myapp");
    let (_, action) =
        register_step(&auth, BASE, Registration::AwaitingRequest, hello("abc", None));
    assert_eq!(accepted(action), "ba7816bf8f01");
}

#[test]
fn a_static_relay_goes_by_its_tokens() {
    let auth = AuthMode::Static(tokens(&[("t", &["myapp", "myapp-*"]), ("u", &["solo"])]));
    let start = || Registration::AwaitingRequest;
    let (_, action) = register_step(&auth, BASE, start(), hello("nope", Some("myapp")));
    assert_eq!(rejected(action), "invalid token");
    let (_, action) = register_step(&auth, BASE, start(), hello("t", Some("myapp-dev")));
    assert_eq!(accepted(action), "myapp-dev");
    let (_, action) = register_step(&auth, BASE, start(), hello("u", Some("myapp")));
    assert_eq!(accepted(action), "solo");

    let (state, action) = register_step(&auth, BASE, start(), hello("t", Some("solo")));
    let RegistrationAction::Offer(offer) = action else { panic!() };
    assert_eq!(offer.subdomains, texts(&["myapp", "myapp-*"]));
    let (state, action) = register_step(&auth, BASE, state, hello("t", None));
    assert!(matches!(action, RegistrationAction::Wait));
    let (state, action) = register_step(&auth, BASE, state, pick("myapp-1"));
    assert_eq!(accepted(action), "myapp-1");
    let (_, action) = register_step(&auth, BASE, state, pick("myapp-2"));
    assert!(matches!(action, RegistrationAction::Stop));

    let (state, _) = register_step(&auth, BASE, start(), hello("t", None));
    let (_, action) = register_step(&auth, BASE, state, pick("solo"));
    assert_eq!(rejected(action), "subdomain 'solo' not authorized for this token");
    assert_eq!(REJECTED_CODE, 4001);
}

#[test]
fn a_provider_decides() {
    let auth = AuthMode::Provider(AuthProviderConfig {
        url: "https://api.example.com".to_string(),
        secret: "s3".to_string(),
    });
    let verifying = |wish: Option<&str>| {
        let (state, action) =
            register_step(&auth, BASE, Registration::AwaitingRequest, hello("tok", wish));
        let RegistrationAction::Verify(call) = action else { panic!() };
        assert_eq!(call.url, "https://api.example.com/api/verify");
        assert_eq!(call.secret, "s3");
        assert_eq!(call.token, "tok");
        assert_eq!(call.subdomain, wish.unwrap_or(""));
        state
    };
    let told = |state, reply| {
        register_step(&auth, BASE, state, RegistrationEvent::Verdict(verify_token(reply)))
    };
    let (_, action) =
        told(verifying(Some("myapp")), VerifyReply::Accepted(Ok(texts(&["myapp", "b"]))));
    assert_eq!(accepted(action), "myapp");
    let (state, action) =
        told(verifying(None), VerifyReply::Accepted(Ok(texts(&["myapp", "b-*"]))));
    assert!(matches!(action, RegistrationAction::Offer(_)));
    let (_, action) = register_step(&auth, BASE, state, pick("b-1"));
    assert_eq!(accepted(action), "b-1");
    let (_, action) = told(verifying(None), VerifyReply::Denied(Some("expired".to_string())));
    assert_eq!(rejected(action), "expired");
    let (_, action) = told(verifying(None), VerifyReply::Denied(None));
    assert_eq!(rejected(action), "invalid token");
    for reply in [
        VerifyReply::Unexpected(500),
        VerifyReply::NoReply("timeout".to_string()),
        VerifyReply::Accepted(Err("eof".to_string())),
    ] {
        let (_, action) = told(verifying(None), reply);
        assert_eq!(rejected(action), "auth provider unavailable");
    }
}

#[test]
fn other_frames_during_a_registration() {
    let auth = AuthMode::Static(tokens(&[("t", &["a", "b"])]));
    let (state, action) =
        register_step(&auth, BASE, Registration::AwaitingRequest, RegistrationEvent::Other);
    assert!(matches!(action, RegistrationAction::Wait));
    let nothing = RegistrationEvent::Text { register: None, pick: None };
    let (state, action) = register_step(&auth, BASE, state, nothing);
    assert!(matches!(action, RegistrationAction::Wait));
    let (_, action) = register_step(&auth, BASE, state, RegistrationEvent::Ended);
    assert!(matches!(action, RegistrationAction::Stop));
    for ev in [RegistrationEvent::Other, RegistrationEvent::Ended] {
        let (state, _) =
            register_step(&auth, BASE, Registration::AwaitingRequest, hello("t", None));
        let (state, action) = register_step(&auth, BASE, state, ev);
        assert!(matches!(action, RegistrationAction::Stop));
        assert!(matches!(state, Registration::Done));
    }
}

#[test]
fn a_newcomer_evicts_the_holder() {
    let mut r = TunnelRegistry::new();
    assert_eq!(r.route("myapp"), None);
    assert_eq!(r.register("myapp".to_string(), 1), None);
    assert_eq!(r.register("other".to_string(), 2), None);
    assert_eq!(r.register("myapp".to_string(), 3), Some(1));
    assert_eq!(r.route("myapp"), Some(3));
    assert_eq!(r.route("other"), Some(2));
    r.disconnect("myapp", 1);
    assert_eq!(r.route("myapp"), Some(3));
    r.disconnect("myapp", 3);
    assert_eq!(r.route("myapp"), None);
    r.disconnect("myapp", 3);
    assert_eq!(r.route("myapp"), None);
    assert_eq!(r.route("other"), Some(2));
    assert_eq!(evicted_reason(), "evicted: another client registered with the same tunnel");
}
