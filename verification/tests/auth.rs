use mcp_tunnel::auth::{
    glob_match, reply_kind, subdomain_matches, verify_call, verify_token, AuthError,
    AuthProviderConfig, ReplyKind, VerifyReply,
};

#[test]
fn patterns_with_one_star() {
    for (pattern, value, fits) in [
        ("myapp", "myapp", true),
        ("myapp", "myapp2", false),
        ("myapp-*", "myapp-dev", true),
        ("myapp-*", "myapp-feat-123", true),
        ("myapp-*", "myapp", false),
        ("*-preview", "feat-preview", true),
        ("*-preview", "hotfix-preview", true),
        ("*-preview", "preview", false),
        ("pr-*-corp", "pr-123-corp", true),
        ("pr-*-corp", "pr-abc-corp", true),
        ("pr-*-corp", "pr-corp", false),
        ("*", "anything", true),
        ("*", "", true),
    ] {
        assert_eq!(glob_match(pattern, value), fits, "{pattern} {value}");
    }
}

#[test]
fn prefix_and_suffix_do_not_overlap() {
    assert!(glob_match("ab*ba", "abba"));
    assert!(!glob_match("ab*ba", "aba"));
}

#[test]
fn only_the_first_star_stands_for_any_text() {
    assert!(glob_match("a*b*", "axb*"));
    assert!(!glob_match("a*b*", "axbx"));
}

#[test]
fn one_fitting_pattern_is_enough() {
    let patterns = vec!["myapp".to_string(), "myapp-*".to_string()];
    assert!(subdomain_matches(&patterns, "myapp"));
    assert!(subdomain_matches(&patterns, "myapp-dev"));
    assert!(!subdomain_matches(&patterns, "other"));
    assert!(!subdomain_matches(&[], "myapp"));
}

#[test]
fn the_provider_is_asked_about_token_and_subdomain() {
    let auth = AuthProviderConfig {
        url: "https://api.example.com".to_string(),
        secret: "s3".to_string(),
    };
    let call = verify_call(&auth, "tok", Some("myapp"));
    assert_eq!(call.url, "https://api.example.com/api/verify");
    assert_eq!(call.secret, "s3");
    assert_eq!(call.token, "tok");
    assert_eq!(call.subdomain, "myapp");
    assert_eq!(verify_call(&auth, "tok", None).subdomain, "");
}

#[test]
fn the_status_tells_how_to_read_a_reply() {
    assert!(reply_kind(200) == ReplyKind::Accepted);
    assert!(reply_kind(401) == ReplyKind::Denied);
    assert!(reply_kind(403) == ReplyKind::Denied);
    for status in [201, 204, 400, 404, 500, 503] {
        assert!(reply_kind(status) == ReplyKind::Unexpected);
    }
}

fn unavailable(reply: VerifyReply) -> String {
    match verify_token(reply) {
        Err(AuthError::ProviderUnavailable(m)) => m,
        other => panic!("{other:?}"),
    }
}

fn refused(reply: VerifyReply) -> String {
    match verify_token(reply) {
        Err(AuthError::InvalidToken(m)) => m,
        other => panic!("{other:?}"),
    }
}

#[test]
fn verdicts() {
    let list = vec!["myapp".to_string(), "myapp-*".to_string()];
    assert_eq!(verify_token(VerifyReply::Accepted(Ok(list.clone()))).unwrap(), list);
    assert_eq!(unavailable(VerifyReply::Accepted(Err("eof".to_string()))), "bad response: eof");
    assert_eq!(unavailable(VerifyReply::NoReply("refused".to_string())), "refused");
    assert_eq!(unavailable(VerifyReply::Unexpected(503)), "unexpected status 503");
    assert_eq!(refused(VerifyReply::Denied(Some("expired".to_string()))), "expired");
    assert_eq!(refused(VerifyReply::Denied(None)), "invalid token");
}
