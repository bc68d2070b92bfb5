use mcp_tunnel::config::{
    load, load_from_env, parse_tokens, parse_tokens_env, Cli, ConfigError, EnvError, RelayConfig,
    RelayEnv, TokenEntry, TokensVar,
};

fn texts(list: &[&str]) -> Vec<String> {
    list.iter().map(|s| s.to_string()).collect()
}

fn cli(static_tokens: &[&str], auth_url: Option<&str>) -> Cli {
    Cli {
        domain: "tunnel.example.com".to_string(),
        port: 8080,
        static_tokens: texts(static_tokens),
        auth_url: auth_url.map(|s| s.to_string()),
        auth_secret: auth_url.map(|_| "s3".to_string()),
        max_request_body: 5242880,
        max_response_body: 10485760,
    }
}

fn config_error(r: Result<RelayConfig, ConfigError>) -> ConfigError {
    match r {
        Ok(_) => panic!("expected an error"),
        Err(e) => e,
    }
}

#[test]
fn static_tokens_map_to_their_patterns() {
    let entries = texts(&["tok_abc:myapp,myapp-*", "tok_xyz:other-app"]);
    let Ok(tokens) = parse_tokens(&entries) else { panic!() };
    assert_eq!(tokens.len(), 2);
    assert_eq!(tokens.get("tok_abc"), Some(&texts(&["myapp", "myapp-*"])));
    assert_eq!(tokens.get("tok_xyz"), Some(&texts(&["other-app"])));
}

#[test]
fn entries_are_cleaned_and_the_last_one_counts() {
    let entries = texts(&["t: a , ,b,", "u:x:y", "t:c"]);
    let Ok(tokens) = parse_tokens(&entries) else { panic!() };
    assert_eq!(tokens.get("t"), Some(&texts(&["c"])));
    assert_eq!(tokens.get("u"), Some(&texts(&["x:y"])));
    let Ok(tokens) = parse_tokens(&texts(&["t: a , ,b,"])) else { panic!() };
    assert_eq!(tokens.get("t"), Some(&texts(&["a", "b"])));
}

#[test]
fn wrong_entries_are_reported() {
    let Err(e) = parse_tokens(&texts(&["ok:a", "nocolon", "x:"])) else { panic!() };
    assert!(matches!(&e, ConfigError::TokenFormat(entry) if entry == "nocolon"));
    assert_eq!(
        e.message(),
        "error: invalid --static-token format: nocolon\n  expected: TOKEN:SUBDOMAIN[,SUBDOMAIN...]"
    );
    let Err(e) = parse_tokens(&texts(&["to\"k: , "])) else { panic!() };
    assert!(matches!(&e, ConfigError::NoSubdomains(token) if token == "to\"k"));
    assert_eq!(e.message(), "error: --static-token \"to\\\"k\" has no subdomains");
}

#[test]
fn command_line_values_make_a_configuration() {
    let Ok(cfg) = load(cli(&[], Some("https://api.example.com"))) else { panic!() };
    assert_eq!(cfg.port, 8080);
    assert_eq!(cfg.relay_domain, "tunnel.example.com");
    assert_eq!(cfg.auth_provider.as_deref(), Some("https://api.example.com"));
    assert_eq!(cfg.auth_provider_secret.as_deref(), Some("s3"));
    assert!(cfg.tokens.is_empty());
    assert_eq!(cfg.max_request_body_size, Some(5 * 1024 * 1024));
    assert_eq!(cfg.max_response_body_size, Some(10 * 1024 * 1024));
    let Ok(cfg) = load(cli(&["t:a"], None)) else { panic!() };
    assert_eq!(cfg.tokens.len(), 1);
    assert_eq!(cfg.auth_provider, None);
}

#[test]
fn static_tokens_and_a_provider_exclude_each_other() {
    let e = config_error(load(cli(&["nocolon"], Some("https://api.example.com"))));
    assert!(matches!(e, ConfigError::StaticAndProvider));
    assert_eq!(e.message(), "error: --static-token and --auth-url are mutually exclusive");
    assert!(matches!(config_error(load(cli(&["nocolon"], None))), ConfigError::TokenFormat(_)));
}

fn env() -> RelayEnv {
    RelayEnv {
        port: None,
        domain: Some("tunnel.example.com".to_string()),
        auth_mode: None,
        auth_url: None,
        auth_secret: None,
        tokens: TokensVar::Unset,
        max_request_body: None,
        max_response_body: None,
    }
}

fn env_error(env: RelayEnv) -> String {
    match load_from_env(env) {
        Ok(_) => panic!("expected an error"),
        Err(e) => e.message(),
    }
}

#[test]
fn an_environment_makes_a_configuration() {
    let Ok(cfg) = load_from_env(env()) else { panic!() };
    assert_eq!(cfg.port, 8080);
    assert_eq!(cfg.relay_domain, "tunnel.example.com");
    assert_eq!(cfg.auth_provider, None);
    assert_eq!(cfg.auth_provider_secret, None);
    assert!(cfg.tokens.is_empty());
    assert_eq!(cfg.max_request_body_size, None);
    assert_eq!(cfg.max_response_body_size, None);

    let mut e = env();
    e.port = Some("9999".to_string());
    e.auth_mode = Some("provider".to_string());
    e.auth_url = Some("https://a".to_string());
    e.auth_secret = Some("s".to_string());
    e.max_request_body = Some("100".to_string());
    e.max_response_body = Some("lots".to_string());
    let Ok(cfg) = load_from_env(e) else { panic!() };
    assert_eq!(cfg.port, 9999);
    assert_eq!(cfg.auth_provider.as_deref(), Some("https://a"));
    assert_eq!(cfg.auth_provider_secret.as_deref(), Some("s"));
    assert_eq!(cfg.max_request_body_size, Some(100));
    assert_eq!(cfg.max_response_body_size, None);
}

#[test]
fn numbers_that_cannot_be_read_count_as_unset() {
    for port in ["", "70000", "-1", "x"] {
        let mut e = env();
        e.port = Some(port.to_string());
        let Ok(cfg) = load_from_env(e) else { panic!() };
        assert_eq!(cfg.port, 8080, "{port:?}");
    }
}

#[test]
fn a_secret_without_provider_mode_is_left_out() {
    let mut e = env();
    e.auth_mode = Some("static".to_string());
    e.auth_url = Some("https://a".to_string());
    e.auth_secret = Some("s".to_string());
    let Ok(cfg) = load_from_env(e) else { panic!() };
    assert_eq!(cfg.auth_provider, None);
    assert_eq!(cfg.auth_provider_secret, None);
}

#[test]
fn errors_of_the_environment() {
    let mut e = env();
    e.domain = None;
    e.auth_mode = Some("bogus".to_string());
    assert_eq!(env_error(e), "error: MCPR_RELAY_DOMAIN is required");

    let mut e = env();
    e.auth_mode = Some("provider".to_string());
    assert_eq!(
        env_error(e),
        "error: MCPR_RELAY_AUTH_URL is required when MCPR_RELAY_AUTH_MODE=provider"
    );

    let mut e = env();
    e.auth_mode = Some("provider".to_string());
    e.auth_url = Some("https://a".to_string());
    assert_eq!(
        env_error(e),
        "error: MCPR_RELAY_AUTH_SECRET is required when MCPR_RELAY_AUTH_MODE=provider"
    );

    let mut e = env();
    e.auth_mode = Some("bogus".to_string());
    e.tokens = TokensVar::Malformed("eof".to_string());
    assert_eq!(
        env_error(e),
        "error: unknown MCPR_RELAY_AUTH_MODE: bogus (expected: open, static, provider)"
    );

    let mut e = env();
    e.tokens = TokensVar::Malformed("eof".to_string());
    assert_eq!(
        env_error(e),
        "error: failed to parse MCPR_RELAY_TOKENS: eof\n  expected: \
         [{\"token\":\"tok_abc\",\"subdomains\":[\"myapp\",\"myapp-*\"]}]"
    );
}

#[test]
fn tokens_of_the_environment() {
    let entry = |token: &str, subs: &[&str]| TokenEntry {
        token: token.to_string(),
        subdomains: texts(subs),
    };
    let var = TokensVar::Entries(vec![
        entry("tok_abc", &["a"]),
        entry("tok_xyz", &[]),
        entry("tok_abc", &["myapp", "myapp-*"]),
    ]);
    let Ok(tokens) = parse_tokens_env(var) else { panic!() };
    assert_eq!(tokens.len(), 2);
    assert_eq!(tokens.get("tok_abc"), Some(&texts(&["myapp", "myapp-*"])));
    assert_eq!(tokens.get("tok_xyz"), Some(&texts(&[])));
    assert!(matches!(
        parse_tokens_env(TokensVar::Malformed("eof".to_string())),
        Err(EnvError::MalformedTokens(why)) if why == "eof"
    ));
}
