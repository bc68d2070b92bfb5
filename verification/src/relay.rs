//! The relay: how it authenticates, how a client registers, and who holds which subdomain.

use crate::auth::{
    allowed_by, glob_matches, law_plain_pattern, subdomain_matches, verdict, verdict_view,
    verify_call, AuthError, AuthErrorView, AuthProviderConfig, VerifyCall, VerifyReply,
};
use crate::client::has_wildcard;
use crate::config::{provider_has_secret, ConfigView, RelayConfig, DEFAULT_MAX_REQUEST_BODY};
use crate::outside::{hex_char, sha256, sha256_of};
use crate::protocol::{
    opt_text, AckView, RegisterAck, RegisterRequest, RegisterView, SubdomainOffer, SubdomainPick,
};
use crate::string_map::StringMap;
use crate::tables::{get_handle, handles, insert_handle, new_handles, remove_handle};
use crate::text::{copy_texts, law_without_trailing, trim_end_char, without_trailing};
use dashmap::DashMap;
use vstd::prelude::*;
use vstd::string::*;
use vstd::utf8::encode_utf8;

verus! {

/// The close code of a refused registration.
pub const REJECTED_CODE: u16 = 4001;

/// The reason in the close frame of an evicted client, whose code is
/// [`EVICTED_CODE`](crate::client::EVICTED_CODE).
pub fn evicted_reason() -> (reason: String)
    ensures
        reason@ == "evicted: another client registered with the same tunnel"@,
{
    "evicted: another client registered with the same tunnel".to_string()
}

// ---------------------------------------------------------------------------
// Settings
// ---------------------------------------------------------------------------

/// How a relay decides who may tunnel.
pub enum AuthMode {
    /// Anyone may.
    Open,
    /// The holders of listed tokens may, each with the patterns of its token.
    Static(StringMap<Vec<String>>),
    /// An auth provider decides.
    Provider(AuthProviderConfig),
}

/// The content of an [`AuthMode`].
pub enum AuthModeView {
    Open,
    Static(Map<Seq<char>, Seq<Seq<char>>>),
    Provider { url: Seq<char>, secret: Seq<char> },
}

impl View for AuthMode {
    type V = AuthModeView;

    open spec fn view(&self) -> AuthModeView {
        match self {
            AuthMode::Open => AuthModeView::Open,
            AuthMode::Static(tokens) => AuthModeView::Static(tokens@),
            AuthMode::Provider(auth) => AuthModeView::Provider {
                url: auth.url@,
                secret: auth.secret@,
            },
        }
    }
}

/// What a relay runs with.
pub struct RelayApp {
    pub auth: AuthMode,
    pub base_domain: String,
    /// Limit on inbound request bodies, in bytes.
    pub max_body: usize,
    /// Limit on tunneled response bodies, in bytes; none where they may have any length.
    pub max_response_body: Option<usize>,
    pub port: u16,
}

/// How a configuration decides who may tunnel: by its static tokens if it has any, else by its
/// auth provider if it names one, else not at all.
pub open spec fn auth_mode(config: ConfigView) -> AuthModeView {
    if config.tokens != Map::<Seq<char>, Seq<Seq<char>>>::empty() {
        AuthModeView::Static(config.tokens)
    } else {
        match config.auth_provider {
            Some(url) => AuthModeView::Provider {
                url: without_trailing(url, '/'),
                secret: config.auth_provider_secret->Some_0,
            },
            None => AuthModeView::Open,
        }
    }
}

/// The content of a [`RelayApp`].
pub struct AppView {
    pub auth: AuthModeView,
    pub base_domain: Seq<char>,
    pub max_body: usize,
    pub max_response_body: Option<usize>,
    pub port: u16,
}

impl View for RelayApp {
    type V = AppView;

    open spec fn view(&self) -> AppView {
        AppView {
            auth: self.auth@,
            base_domain: self.base_domain@,
            max_body: self.max_body,
            max_response_body: self.max_response_body,
            port: self.port,
        }
    }
}

/// What a relay runs with under a configuration.
pub open spec fn app_for(config: ConfigView) -> AppView {
    AppView {
        auth: auth_mode(config),
        base_domain: config.relay_domain,
        max_body: match config.max_request_body_size {
            Some(n) => n,
            None => DEFAULT_MAX_REQUEST_BODY,
        },
        max_response_body: config.max_response_body_size,
        port: config.port,
    }
}

/// What a relay runs with under a configuration. One that goes by an auth provider has a secret.
pub fn build_relay_app(cfg: RelayConfig) -> (app: RelayApp)
    requires
        provider_has_secret(cfg@),
    ensures
        app.auth@ == auth_mode(cfg@),
        app.base_domain@ == cfg@.relay_domain,
        app.max_body == (match cfg@.max_request_body_size {
            Some(n) => n,
            None => DEFAULT_MAX_REQUEST_BODY,
        }),
        app.max_response_body == cfg@.max_response_body_size,
        app.port == cfg@.port,
        app@ == app_for(cfg@),
{
    let auth: AuthMode = if !cfg.tokens.is_empty() {
        AuthMode::Static(cfg.tokens)
    } else {
        match (cfg.auth_provider, cfg.auth_provider_secret) {
            (Some(url), Some(secret)) => AuthMode::Provider(
                AuthProviderConfig { url: trim_end_char(&url, '/'), secret },
            ),
            _ => AuthMode::Open,
        }
    };
    let max_body: usize = match cfg.max_request_body_size {
        Some(n) => n,
        None => DEFAULT_MAX_REQUEST_BODY,
    };
    RelayApp {
        auth,
        base_domain: cfg.relay_domain,
        max_body,
        max_response_body: cfg.max_response_body_size,
        port: cfg.port,
    }
}

// ---------------------------------------------------------------------------
// Subdomains from tokens
// ---------------------------------------------------------------------------

/// The lower-case hexadecimal digit for a value below sixteen.
pub open spec fn hex_digit(n: int) -> char {
    if n < 10 {
        (('0' as u32) + n) as char
    } else {
        (('a' as u32) + n - 10) as char
    }
}

/// The lower-case hexadecimal form of a run of bytes, two digits for each.
pub open spec fn hex(bytes: Seq<u8>) -> Seq<char> {
    Seq::new(
        bytes.len() * 2,
        |i: int|
            if i % 2 == 0 {
                hex_digit(bytes[i / 2] as int / 16)
            } else {
                hex_digit(bytes[i / 2] as int % 16)
            },
    )
}

/// The subdomain of a token in open mode: the first six bytes of its digest in hexadecimal.
pub open spec fn hashed_subdomain(token: Seq<char>) -> Seq<char> {
    hex(sha256_of(encode_utf8(token)).take(6))
}

fn to_hex_digit(n: u8) -> (c: char)
    requires
        n < 16,
    ensures
        c == hex_digit(n as int),
        hex_char(c),
{
    if n < 10 {
        (48 + n) as char
    } else {
        (97 + (n - 10)) as char
    }
}

/// The subdomain of a digest: its first six bytes in hexadecimal.
pub fn digest_to_subdomain(digest: &Vec<u8>) -> (s: String)
    requires
        digest@.len() >= 6,
    ensures
        s@ == hex(digest@.take(6)),
        s@.len() == 12,
        forall|i: int| 0 <= i < s@.len() ==> hex_char(#[trigger] s@[i]),
{
    let mut s: String = String::new();
    let mut i: usize = 0;
    let ghost first = digest@.take(6);
    while i < 6
        invariant
            i <= 6,
            digest@.len() >= 6,
            first == digest@.take(6),
            s@.len() == 2 * i,
            forall|j: int|
                0 <= j < s@.len() ==> #[trigger] s@[j] == hex(first)[j] && hex_char(s@[j]),
        decreases 6 - i,
    {
        let b: u8 = digest[i];
        assert(first[i as int] == b);
        let ghost before = s@;
        s.push(to_hex_digit(b / 16));
        s.push(to_hex_digit(b % 16));
        assert forall|j: int| 0 <= j < s@.len() implies #[trigger] s@[j] == hex(first)[j]
            && hex_char(s@[j]) by {
            if j < before.len() {
                assert(s@[j] == before[j]);
            }
        }
        i = i + 1;
    }
    assert(s@ =~= hex(first));
    s
}

/// The subdomain of a token in open mode.
pub fn token_to_subdomain(token: &str) -> (s: String)
    ensures
        s@ == hashed_subdomain(token@),
        s@.len() == 12,
        forall|i: int| 0 <= i < s@.len() ==> hex_char(#[trigger] s@[i]),
{
    digest_to_subdomain(&sha256(token.as_bytes()))
}

// ---------------------------------------------------------------------------
// Registration
// ---------------------------------------------------------------------------

/// The public URL of a subdomain.
pub open spec fn public_url(subdomain: Seq<char>, base_domain: Seq<char>) -> Seq<char> {
    "https://"@ + subdomain + "."@ + base_domain
}

/// What the relay answers when a tunnel stands.
pub fn acknowledge(subdomain: String, base_domain: &str) -> (ack: RegisterAck)
    ensures
        ack@ == (AckView {
            subdomain: subdomain@,
            url: public_url(subdomain@, base_domain@),
        }),
{
    let mut url: String = "https://".to_string();
    url.append(&subdomain);
    url.append(".");
    url.append(base_domain);
    RegisterAck { subdomain, url }
}

/// The subdomain that a client gets without being asked: the one that it wishes for where its
/// token allows it, else the only one that its token allows where that is a concrete one.
pub open spec fn resolved(requested: Option<Seq<char>>, allowed: Seq<Seq<char>>) -> Option<
    Seq<char>,
> {
    if requested is Some && allowed_by(allowed, requested->Some_0) {
        requested
    } else if allowed.len() == 1 && !allowed[0].contains('*') {
        Some(allowed[0])
    } else {
        None
    }
}

/// The subdomain that a client gets without being asked; none where it has to choose.
pub fn resolve_subdomain(requested: &Option<String>, allowed: &Vec<String>) -> (r: Option<String>)
    ensures
        opt_text(r) == resolved(opt_text(*requested), allowed.deep_view()),
{
    if let Some(sub) = requested {
        if subdomain_matches(allowed, sub) {
            return Some(sub.clone());
        }
    }
    if allowed.len() == 1 && !has_wildcard(&allowed[0]) {
        return Some(allowed[0].clone());
    }
    None
}

/// How far a registration has come.
pub enum Registration {
    /// The client has not said who it is.
    AwaitingRequest,
    /// The auth provider is being asked.
    Verifying { requested: Option<String> },
    /// The client has been offered the patterns of its token.
    AwaitingPick { allowed: Vec<String> },
    /// The registration is over.
    Done,
}

/// The content of a [`Registration`].
pub enum RegistrationView {
    AwaitingRequest,
    Verifying { requested: Option<Seq<char>> },
    AwaitingPick { allowed: Seq<Seq<char>> },
    Done,
}

impl View for Registration {
    type V = RegistrationView;

    open spec fn view(&self) -> RegistrationView {
        match self {
            Registration::AwaitingRequest => RegistrationView::AwaitingRequest,
            Registration::Verifying { requested } => RegistrationView::Verifying {
                requested: opt_text(*requested),
            },
            Registration::AwaitingPick { allowed } => RegistrationView::AwaitingPick {
                allowed: allowed.deep_view(),
            },
            Registration::Done => RegistrationView::Done,
        }
    }
}

/// What happens during a registration.
pub enum RegistrationEvent {
    /// A text frame, with what it reads as.
    Text { register: Option<RegisterRequest>, pick: Option<SubdomainPick> },
    /// Any other frame.
    Other,
    /// The connection ended or failed.
    Ended,
    /// What the auth provider says about the token.
    Verdict(Result<Vec<String>, AuthError>),
}

/// What the relay does next.
pub enum RegistrationAction {
    /// Wait for the next event.
    Wait,
    /// Ask the auth provider.
    Verify(VerifyCall),
    /// Send this offer.
    Offer(SubdomainOffer),
    /// Send this acknowledgement; the tunnel stands.
    Accept(RegisterAck),
    /// Close with [`REJECTED_CODE`] and this reason.
    Reject(String),
    /// Close without a word.
    Stop,
}

/// The content of a [`RegistrationAction`].
pub enum RegistrationActionView {
    Wait,
    Verify { url: Seq<char>, secret: Seq<char>, token: Seq<char>, subdomain: Seq<char> },
    Offer(Seq<Seq<char>>),
    Accept(AckView),
    Reject(Seq<char>),
    Stop,
}

impl View for RegistrationAction {
    type V = RegistrationActionView;

    open spec fn view(&self) -> RegistrationActionView {
        match self {
            RegistrationAction::Wait => RegistrationActionView::Wait,
            RegistrationAction::Verify(call) => RegistrationActionView::Verify {
                url: call.url@,
                secret: call.secret@,
                token: call.token@,
                subdomain: call.subdomain@,
            },
            RegistrationAction::Offer(offer) => RegistrationActionView::Offer(
                offer.subdomains.deep_view(),
            ),
            RegistrationAction::Accept(ack) => RegistrationActionView::Accept(ack@),
            RegistrationAction::Reject(reason) => RegistrationActionView::Reject(reason@),
            RegistrationAction::Stop => RegistrationActionView::Stop,
        }
    }
}

/// The acceptance of a subdomain.
pub open spec fn accepted(subdomain: Seq<char>, base_domain: Seq<char>) -> (
    RegistrationView,
    RegistrationActionView,
) {
    (
        RegistrationView::Done,
        RegistrationActionView::Accept(
            AckView { subdomain, url: public_url(subdomain, base_domain) },
        ),
    )
}

/// What follows when the patterns that a client may use are known.
pub open spec fn granted(
    requested: Option<Seq<char>>,
    allowed: Seq<Seq<char>>,
    base_domain: Seq<char>,
) -> (RegistrationView, RegistrationActionView) {
    match resolved(requested, allowed) {
        Some(subdomain) => accepted(subdomain, base_domain),
        None => (
            RegistrationView::AwaitingPick { allowed },
            RegistrationActionView::Offer(allowed),
        ),
    }
}

/// What follows when a client says who it is.
pub open spec fn introduced(
    auth: AuthModeView,
    base_domain: Seq<char>,
    reg: RegisterView,
) -> (RegistrationView, RegistrationActionView) {
    match auth {
        AuthModeView::Open => match reg.subdomain {
            Some(subdomain) => accepted(subdomain, base_domain),
            None => accepted(hashed_subdomain(reg.token), base_domain),
        },
        AuthModeView::Static(tokens) => if tokens.contains_key(reg.token) {
            granted(reg.subdomain, tokens[reg.token], base_domain)
        } else {
            (RegistrationView::Done, RegistrationActionView::Reject("invalid token"@))
        },
        AuthModeView::Provider { url, secret } => (
            RegistrationView::Verifying { requested: reg.subdomain },
            RegistrationActionView::Verify {
                url: url + "/api/verify"@,
                secret,
                token: reg.token,
                subdomain: match reg.subdomain {
                    Some(s) => s,
                    None => Seq::empty(),
                },
            },
        ),
    }
}

/// What follows when a client picks a subdomain from an offer.
pub open spec fn picked(
    allowed: Seq<Seq<char>>,
    subdomain: Seq<char>,
    base_domain: Seq<char>,
) -> (RegistrationView, RegistrationActionView) {
    if allowed_by(allowed, subdomain) {
        accepted(subdomain, base_domain)
    } else {
        (
            RegistrationView::Done,
            RegistrationActionView::Reject(
                "subdomain '"@ + subdomain + "' not authorized for this token"@,
            ),
        )
    }
}

/// One step of a registration: the state behind the event, and what the relay does.
pub open spec fn registration_step(
    auth: AuthModeView,
    base_domain: Seq<char>,
    state: RegistrationView,
    ev: RegistrationEvent,
) -> (RegistrationView, RegistrationActionView) {
    match (state, ev) {
        (RegistrationView::Done, _) => (RegistrationView::Done, RegistrationActionView::Stop),
        (
            RegistrationView::AwaitingRequest,
            RegistrationEvent::Text { register: Some(reg), .. },
        ) => introduced(auth, base_domain, reg@),
        (RegistrationView::AwaitingRequest, RegistrationEvent::Ended) => (
            RegistrationView::Done,
            RegistrationActionView::Stop,
        ),
        (RegistrationView::Verifying { requested }, RegistrationEvent::Verdict(Ok(allowed))) =>
            granted(requested, allowed.deep_view(), base_domain),
        (RegistrationView::Verifying { .. }, RegistrationEvent::Verdict(Err(e))) => (
            RegistrationView::Done,
            match e@ {
                AuthErrorView::InvalidToken(reason) => RegistrationActionView::Reject(reason),
                AuthErrorView::ProviderUnavailable(_) => RegistrationActionView::Reject(
                    "auth provider unavailable"@,
                ),
            },
        ),
        (
            RegistrationView::AwaitingPick { allowed },
            RegistrationEvent::Text { pick: Some(pick), .. },
        ) => picked(allowed, pick.subdomain@, base_domain),
        (RegistrationView::AwaitingPick { .. }, RegistrationEvent::Other) => (
            RegistrationView::Done,
            RegistrationActionView::Stop,
        ),
        (RegistrationView::AwaitingPick { .. }, RegistrationEvent::Ended) => (
            RegistrationView::Done,
            RegistrationActionView::Stop,
        ),
        _ => (state, RegistrationActionView::Wait),
    }
}

/// The step to a standing tunnel.
fn accept(subdomain: String, base_domain: &str) -> (r: (Registration, RegistrationAction))
    ensures
        (r.0@, r.1@) == accepted(subdomain@, base_domain@),
{
    (Registration::Done, RegistrationAction::Accept(acknowledge(subdomain, base_domain)))
}

/// The step that follows when the patterns that a client may use are known.
fn grant(requested: &Option<String>, allowed: &Vec<String>, base_domain: &str) -> (r: (
    Registration,
    RegistrationAction,
))
    ensures
        (r.0@, r.1@) == granted(opt_text(*requested), allowed.deep_view(), base_domain@),
{
    match resolve_subdomain(requested, allowed) {
        Some(subdomain) => accept(subdomain, base_domain),
        None => (
            Registration::AwaitingPick { allowed: copy_texts(allowed) },
            RegistrationAction::Offer(SubdomainOffer { subdomains: copy_texts(allowed) }),
        ),
    }
}

/// The step that follows when a client says who it is.
fn introduce(auth: &AuthMode, base_domain: &str, reg: RegisterRequest) -> (r: (
    Registration,
    RegistrationAction,
))
    ensures
        (r.0@, r.1@) == introduced(auth@, base_domain@, reg@),
{
    match auth {
        AuthMode::Open => match reg.subdomain {
            Some(subdomain) => accept(subdomain, base_domain),
            None => accept(token_to_subdomain(&reg.token), base_domain),
        },
        AuthMode::Static(tokens) => match tokens.get(&reg.token) {
            Some(allowed) => grant(&reg.subdomain, allowed, base_domain),
            None => (
                Registration::Done,
                RegistrationAction::Reject("invalid token".to_string()),
            ),
        },
        AuthMode::Provider(provider) => {
            let call = match &reg.subdomain {
                Some(s) => verify_call(provider, &reg.token, Some(s.as_str())),
                None => verify_call(provider, &reg.token, None),
            };
            (
                Registration::Verifying { requested: reg.subdomain },
                RegistrationAction::Verify(call),
            )
        },
    }
}

/// The step that follows when a client picks a subdomain from an offer.
fn pick_offered(allowed: &Vec<String>, subdomain: String, base_domain: &str) -> (r: (
    Registration,
    RegistrationAction,
))
    ensures
        (r.0@, r.1@) == picked(allowed.deep_view(), subdomain@, base_domain@),
{
    if subdomain_matches(allowed, &subdomain) {
        accept(subdomain, base_domain)
    } else {
        let mut reason: String = "subdomain '".to_string();
        reason.append(&subdomain);
        reason.append("' not authorized for this token");
        (Registration::Done, RegistrationAction::Reject(reason))
    }
}

/// One step of a registration: the state behind the event, and what the relay does.
pub fn register_step(
    auth: &AuthMode,
    base_domain: &str,
    state: Registration,
    ev: RegistrationEvent,
) -> (r: (Registration, RegistrationAction))
    ensures
        (r.0@, r.1@) == registration_step(auth@, base_domain@, state@, ev),
{
    match (state, ev) {
        (Registration::Done, _) => (Registration::Done, RegistrationAction::Stop),
        (Registration::AwaitingRequest, RegistrationEvent::Text { register: Some(reg), .. }) =>
            introduce(auth, base_domain, reg),
        (Registration::AwaitingRequest, RegistrationEvent::Ended) => (
            Registration::Done,
            RegistrationAction::Stop,
        ),
        (Registration::Verifying { requested }, RegistrationEvent::Verdict(Ok(allowed))) => grant(
            &requested,
            &allowed,
            base_domain,
        ),
        (
            Registration::Verifying { .. },
            RegistrationEvent::Verdict(Err(AuthError::InvalidToken(reason))),
        ) => (Registration::Done, RegistrationAction::Reject(reason)),
        (
            Registration::Verifying { .. },
            RegistrationEvent::Verdict(Err(AuthError::ProviderUnavailable(_))),
        ) => (
            Registration::Done,
            RegistrationAction::Reject("auth provider unavailable".to_string()),
        ),
        (
            Registration::AwaitingPick { allowed },
            RegistrationEvent::Text { pick: Some(pick), .. },
        ) => pick_offered(&allowed, pick.subdomain, base_domain),
        (Registration::AwaitingPick { .. }, RegistrationEvent::Other) => (
            Registration::Done,
            RegistrationAction::Stop,
        ),
        (Registration::AwaitingPick { .. }, RegistrationEvent::Ended) => (
            Registration::Done,
            RegistrationAction::Stop,
        ),
        (state, _) => (state, RegistrationAction::Wait),
    }
}

// ---------------------------------------------------------------------------
// Who holds which subdomain
// ---------------------------------------------------------------------------

/// The standing tunnels: each subdomain with the handle of the connection that holds it.
pub struct TunnelRegistry {
    tunnels: DashMap<String, u64>,
}

impl View for TunnelRegistry {
    type V = Map<Seq<char>, u64>;

    closed spec fn view(&self) -> Map<Seq<char>, u64> {
        handles(self.tunnels)
    }
}

/// The standing tunnels after a connection took a subdomain.
pub open spec fn claimed(tunnels: Map<Seq<char>, u64>, subdomain: Seq<char>, conn: u64) -> Map<
    Seq<char>,
    u64,
> {
    tunnels.insert(subdomain, conn)
}

/// The connection that is evicted when another takes a subdomain.
pub open spec fn displaced(tunnels: Map<Seq<char>, u64>, subdomain: Seq<char>) -> Option<u64> {
    tunnels.get(subdomain)
}

/// The standing tunnels after a connection of a subdomain is gone: the subdomain is free if the
/// connection held it.
pub open spec fn left(tunnels: Map<Seq<char>, u64>, subdomain: Seq<char>, conn: u64) -> Map<
    Seq<char>,
    u64,
> {
    if tunnels.get(subdomain) == Some(conn) {
        tunnels.remove(subdomain)
    } else {
        tunnels
    }
}

impl TunnelRegistry {
    /// No tunnel stands.
    pub fn new() -> (r: TunnelRegistry)
        ensures
            r@ == Map::<Seq<char>, u64>::empty(),
    {
        TunnelRegistry { tunnels: new_handles() }
    }

    /// The connection takes the subdomain. The one that held it before, if any, is given back: it
    /// is to be evicted.
    pub fn register(&mut self, subdomain: String, conn: u64) -> (evicted: Option<u64>)
        ensures
            final(self)@ == old(self)@.insert(subdomain@, conn),
            final(self)@ == claimed(old(self)@, subdomain@, conn),
            evicted == old(self)@.get(subdomain@),
            evicted == displaced(old(self)@, subdomain@),
    {
        insert_handle(&mut self.tunnels, subdomain, conn)
    }

    /// The connection that holds the subdomain.
    pub fn route(&self, subdomain: &str) -> (conn: Option<u64>)
        ensures
            conn == self@.get(subdomain@),
    {
        get_handle(&self.tunnels, subdomain)
    }

    /// A connection of the subdomain is gone. Nobody holds the subdomain afterwards if that
    /// connection did; one that was evicted takes nothing with it.
    pub fn disconnect(&mut self, subdomain: &str, conn: u64)
        ensures
            final(self)@ == left(old(self)@, subdomain@, conn),
    {
        if let Some(holder) = get_handle(&self.tunnels, subdomain) {
            if holder == conn {
                let _ = remove_handle(&mut self.tunnels, subdomain);
            }
        }
    }
}

// ---------------------------------------------------------------------------
// Laws
// ---------------------------------------------------------------------------

/// A second client takes over the subdomain and the first is evicted; other subdomains keep
/// theirs, and when the first then goes, the second still holds the subdomain.
pub proof fn law_newcomer_takes_over(
    tunnels: Map<Seq<char>, u64>,
    subdomain: Seq<char>,
    first: u64,
    second: u64,
    other: Seq<char>,
)
    requires
        other != subdomain,
        first != second,
    ensures
        ({
            let one = claimed(tunnels, subdomain, first);
            let both = claimed(one, subdomain, second);
            &&& one.get(subdomain) == Some(first)
            &&& both.get(subdomain) == Some(second)
            &&& both.get(other) == tunnels.get(other)
            &&& left(both, subdomain, first) == both
            &&& left(both, subdomain, second).get(subdomain) is None
        }),
{
}

/// What happens to the standing tunnels.
pub enum TunnelStep {
    Register { subdomain: Seq<char>, conn: u64 },
    Disconnect { subdomain: Seq<char>, conn: u64 },
}

/// The standing tunnels after some steps.
pub open spec fn tunnels_after(tunnels: Map<Seq<char>, u64>, steps: Seq<TunnelStep>) -> Map<
    Seq<char>,
    u64,
>
    decreases steps.len(),
{
    if steps.len() == 0 {
        tunnels
    } else {
        let before = tunnels_after(tunnels, steps.drop_last());
        match steps.last() {
            TunnelStep::Register { subdomain, conn } => claimed(before, subdomain, conn),
            TunnelStep::Disconnect { subdomain, conn } => left(before, subdomain, conn),
        }
    }
}

/// Whether a step takes the subdomain from the connection: another registration of the subdomain,
/// or the end of the connection itself.
pub open spec fn takes_away(step: TunnelStep, subdomain: Seq<char>, conn: u64) -> bool {
    match step {
        TunnelStep::Register { subdomain: s, .. } => s == subdomain,
        TunnelStep::Disconnect { subdomain: s, conn: c } => s == subdomain && c == conn,
    }
}

/// A tunnel stands until its subdomain is registered again or its own connection ends. Nothing
/// else takes it away, neither other subdomains nor the end of a client that it evicted.
pub proof fn law_tunnel_stands(
    tunnels: Map<Seq<char>, u64>,
    steps: Seq<TunnelStep>,
    n: int,
    subdomain: Seq<char>,
    conn: u64,
)
    requires
        0 <= n < steps.len(),
        steps[n] == (TunnelStep::Register { subdomain, conn }),
        forall|i: int| n < i < steps.len() ==> !takes_away(#[trigger] steps[i], subdomain, conn),
    ensures
        tunnels_after(tunnels, steps).get(subdomain) == Some(conn),
    decreases steps.len(),
{
    if n + 1 < steps.len() {
        let rest = steps.drop_last();
        assert forall|i: int| n < i < rest.len() implies !takes_away(
            #[trigger] rest[i],
            subdomain,
            conn,
        ) by {
            assert(rest[i] == steps[i]);
        }
        law_tunnel_stands(tunnels, rest, n, subdomain, conn);
        assert(!takes_away(steps[steps.len() - 1], subdomain, conn));
    }
}

/// What a token allows includes what its holder gets without being asked.
pub proof fn law_resolved_is_allowed(requested: Option<Seq<char>>, allowed: Seq<Seq<char>>)
    requires
        resolved(requested, allowed) is Some,
    ensures
        allowed_by(allowed, resolved(requested, allowed)->Some_0),
{
    if !(requested is Some && allowed_by(allowed, requested->Some_0)) {
        law_plain_pattern(allowed[0], allowed[0]);
        assert(glob_matches(allowed[0], allowed[0]));
    }
}

/// Whether the events of a registration entitle the client to the patterns `allowed`: it showed a
/// static token that has them, or the auth provider granted them.
pub open spec fn entitled(
    auth: AuthModeView,
    events: Seq<RegistrationEvent>,
    allowed: Seq<Seq<char>>,
) -> bool {
    match auth {
        AuthModeView::Open => false,
        AuthModeView::Static(tokens) => exists|i: int|
            0 <= i < events.len() && (#[trigger] events[i] matches RegistrationEvent::Text {
                register: Some(reg),
                ..
            } && tokens.contains_key(reg.token@) && tokens[reg.token@] == allowed),
        AuthModeView::Provider { .. } => exists|i: int|
            0 <= i < events.len() && (#[trigger] events[i] matches RegistrationEvent::Verdict(
                Ok(list),
            ) && list.deep_view() == allowed),
    }
}

/// The state of a registration after some events.
pub open spec fn registration_after(
    auth: AuthModeView,
    base_domain: Seq<char>,
    events: Seq<RegistrationEvent>,
) -> RegistrationView
    decreases events.len(),
{
    if events.len() == 0 {
        RegistrationView::AwaitingRequest
    } else {
        registration_step(
            auth,
            base_domain,
            registration_after(auth, base_domain, events.drop_last()),
            events.last(),
        ).0
    }
}

proof fn lemma_entitled_grows(
    auth: AuthModeView,
    events: Seq<RegistrationEvent>,
    allowed: Seq<Seq<char>>,
)
    requires
        events.len() > 0,
        entitled(auth, events.drop_last(), allowed),
    ensures
        entitled(auth, events, allowed),
{
    let rest = events.drop_last();
    match auth {
        AuthModeView::Open => {},
        AuthModeView::Static(tokens) => {
            let i = choose|i: int|
                0 <= i < rest.len() && (#[trigger] rest[i] matches RegistrationEvent::Text {
                    register: Some(reg),
                    ..
                } && tokens.contains_key(reg.token@) && tokens[reg.token@] == allowed);
            assert(events[i] == rest[i]);
        },
        AuthModeView::Provider { .. } => {
            let i = choose|i: int|
                0 <= i < rest.len() && (#[trigger] rest[i] matches RegistrationEvent::Verdict(
                    Ok(list),
                ) && list.deep_view() == allowed);
            assert(events[i] == rest[i]);
        },
    }
}

/// A client is only ever offered patterns that it is entitled to.
pub proof fn law_offers_are_entitled(
    auth: AuthModeView,
    base_domain: Seq<char>,
    events: Seq<RegistrationEvent>,
)
    ensures
        registration_after(auth, base_domain, events) matches RegistrationView::AwaitingPick {
            allowed,
        } ==> entitled(auth, events, allowed),
        registration_after(auth, base_domain, events) is Verifying ==> auth is Provider,
    decreases events.len(),
{
    if events.len() > 0 {
        let rest = events.drop_last();
        let n = events.len() - 1;
        law_offers_are_entitled(auth, base_domain, rest);
        let state = registration_after(auth, base_domain, rest);
        if let RegistrationView::AwaitingPick { allowed } = state {
            lemma_entitled_grows(auth, events, allowed);
        }
        assert(events[n] == events.last());
    }
}

/// Outside open mode no sequence of events gets a client a subdomain that does not fit the
/// patterns it is entitled to.
pub proof fn law_accepted_is_entitled(
    auth: AuthModeView,
    base_domain: Seq<char>,
    events: Seq<RegistrationEvent>,
    ack: AckView,
)
    requires
        auth !is Open,
        events.len() > 0,
        registration_step(
            auth,
            base_domain,
            registration_after(auth, base_domain, events.drop_last()),
            events.last(),
        ).1 == RegistrationActionView::Accept(ack),
    ensures
        exists|allowed: Seq<Seq<char>>| #[trigger]
            entitled(auth, events, allowed) && allowed_by(allowed, ack.subdomain),
        ack.url == public_url(ack.subdomain, base_domain),
{
    let rest = events.drop_last();
    let n = events.len() - 1;
    let state = registration_after(auth, base_domain, rest);
    law_offers_are_entitled(auth, base_domain, rest);
    assert(events[n] == events.last());
    match (state, events.last()) {
        (
            RegistrationView::AwaitingRequest,
            RegistrationEvent::Text { register: Some(reg), .. },
        ) => {
            let tokens = auth->Static_0;
            let allowed = tokens[reg@.token];
            law_resolved_is_allowed(reg@.subdomain, allowed);
            assert(entitled(auth, events, allowed));
        },
        (RegistrationView::Verifying { requested }, RegistrationEvent::Verdict(Ok(list))) => {
            law_resolved_is_allowed(requested, list.deep_view());
            assert(entitled(auth, events, list.deep_view()));
        },
        (RegistrationView::AwaitingPick { allowed }, _) => {
            lemma_entitled_grows(auth, events, allowed);
        },
        _ => {},
    }
}

/// A static relay turns away every token that it does not know.
pub proof fn law_unknown_token_is_rejected(
    tokens: Map<Seq<char>, Seq<Seq<char>>>,
    base_domain: Seq<char>,
    reg: RegisterRequest,
    pick: Option<SubdomainPick>,
)
    requires
        !tokens.contains_key(reg.token@),
    ensures
        registration_step(
            AuthModeView::Static(tokens),
            base_domain,
            RegistrationView::AwaitingRequest,
            RegistrationEvent::Text { register: Some(reg), pick },
        ) == (RegistrationView::Done, RegistrationActionView::Reject("invalid token"@)),
{
}

/// An open relay takes every token: the client gets the subdomain that it wishes for, and one
/// hashed from its token where it names none.
pub proof fn law_open_relay_takes_any_token(
    base_domain: Seq<char>,
    reg: RegisterRequest,
    pick: Option<SubdomainPick>,
)
    ensures
        registration_step(
            AuthModeView::Open,
            base_domain,
            RegistrationView::AwaitingRequest,
            RegistrationEvent::Text { register: Some(reg), pick },
        ) == accepted(
            match opt_text(reg.subdomain) {
                Some(wish) => wish,
                None => hashed_subdomain(reg.token@),
            },
            base_domain,
        ),
{
}

/// A provider that refuses a token has the client turned away with the provider's reason, and one
/// that fails in any way has it turned away as unavailable.
pub proof fn law_provider_refusals_are_told(
    auth: AuthModeView,
    base_domain: Seq<char>,
    requested: Option<Seq<char>>,
    reply: VerifyReply,
    r: Result<Vec<String>, AuthError>,
)
    requires
        verdict_view(r) == verdict(reply),
        !(reply matches VerifyReply::Accepted(Ok(_))),
    ensures
        registration_step(
            auth,
            base_domain,
            RegistrationView::Verifying { requested },
            RegistrationEvent::Verdict(r),
        ) == (
            RegistrationView::Done,
            RegistrationActionView::Reject(
                match reply {
                    VerifyReply::Denied(Some(reason)) => reason@,
                    VerifyReply::Denied(None) => "invalid token"@,
                    _ => "auth provider unavailable"@,
                },
            ),
        ),
{
}

/// Once a registration is over, nothing brings it back.
pub proof fn law_registration_ends_once(
    auth: AuthModeView,
    base_domain: Seq<char>,
    events: Seq<RegistrationEvent>,
    n: int,
)
    requires
        0 <= n <= events.len(),
        registration_after(auth, base_domain, events.take(n)) is Done,
    ensures
        registration_after(auth, base_domain, events) is Done,
    decreases events.len() - n,
{
    if n == events.len() {
        assert(events.take(n) =~= events);
    } else {
        assert(events.drop_last().take(n) =~= events.take(n));
        law_registration_ends_once(auth, base_domain, events.drop_last(), n);
    }
}

// ---------------------------------------------------------------------------
// What a client is answered
// ---------------------------------------------------------------------------

/// A relay with static tokens goes by them alone; one without goes by its provider, at the
/// provider's URL without the slashes at its end and with the secret; and one with neither is open.
pub proof fn law_auth_mode(config: ConfigView, token: Seq<char>)
    ensures
        config.tokens.contains_key(token) ==> auth_mode(config) is Static && auth_mode(
            config,
        )->Static_0 == config.tokens,
        config.tokens == Map::<Seq<char>, Seq<Seq<char>>>::empty() ==> (match config.auth_provider {
            None => auth_mode(config) is Open,
            Some(url) => auth_mode(config) is Provider && auth_mode(config)->url.is_prefix_of(url)
                && (forall|k: int|
                auth_mode(config)->url.len() <= k < url.len() ==> #[trigger] url[k] == '/') && (
            auth_mode(config)->url.len() > 0 ==> auth_mode(config)->url.last() != '/') && (
            config.auth_provider_secret matches Some(secret) ==> auth_mode(config)->secret
                == secret),
        }),
{
    if let Some(url) = config.auth_provider {
        law_without_trailing(url, '/');
    }
}

/// A relay runs with the domain, the port and the limits of its configuration; a request body may
/// have 5242880 bytes where the configuration says nothing.
pub proof fn law_app_follows_its_configuration(config: ConfigView)
    ensures
        app_for(config).base_domain == config.relay_domain,
        app_for(config).port == config.port,
        app_for(config).max_response_body == config.max_response_body_size,
        config.max_request_body_size matches Some(n) ==> app_for(config).max_body == n,
        config.max_request_body_size is None ==> app_for(config).max_body == 5242880,
        app_for(config).auth == auth_mode(config),
{
}

/// The content of what a relay runs with is what it holds, as it stands.
pub proof fn law_app_content(app: RelayApp)
    ensures
        app@.auth == app.auth@,
        app@.base_domain == app.base_domain@,
        app@.max_body == app.max_body,
        app@.max_response_body == app.max_response_body,
        app@.port == app.port,
        app.auth is Open <==> app@.auth is Open,
        app.auth matches AuthMode::Static(tokens) ==> app@.auth is Static && app@.auth->Static_0
            == tokens@,
        app.auth matches AuthMode::Provider(p) ==> app@.auth is Provider && app@.auth->url == p.url@
            && app@.auth->secret == p.secret@,
{
}

/// The value of a hexadecimal digit in lower case.
pub open spec fn hex_value(c: char) -> int {
    if c <= '9' {
        c as u32 - 48
    } else {
        c as u32 - 87
    }
}

/// Each byte has two hexadecimal digits, whose values make up the byte.
pub proof fn law_hex(bytes: Seq<u8>, i: int)
    requires
        0 <= i < bytes.len(),
    ensures
        hex(bytes).len() == 2 * bytes.len(),
        hex_char(hex(bytes)[2 * i]),
        hex_char(hex(bytes)[2 * i + 1]),
        hex_value(hex(bytes)[2 * i]) * 16 + hex_value(hex(bytes)[2 * i + 1]) == bytes[i],
{
}

/// The subdomain of a token spells the first six bytes of the digest of its UTF-8 form.
pub proof fn law_hashed_subdomain(token: Seq<char>, i: int)
    requires
        0 <= i < 6,
    ensures
        sha256_of(encode_utf8(token)).len() >= 6 ==> hashed_subdomain(token).len() == 12
            && hex_value(hashed_subdomain(token)[2 * i]) * 16 + hex_value(
            hashed_subdomain(token)[2 * i + 1],
        ) == sha256_of(encode_utf8(token))[i],
{
    if sha256_of(encode_utf8(token)).len() >= 6 {
        law_hex(sha256_of(encode_utf8(token)).take(6), i);
    }
}

/// The public URL is the subdomain, a dot and the base domain, each as it stands, behind
/// `https://`.
pub proof fn law_public_url(subdomain: Seq<char>, base_domain: Seq<char>)
    ensures
        ({
            let url = public_url(subdomain, base_domain);
            let scheme = "https://"@.len() as int;
            &&& url.len() == scheme + subdomain.len() + 1 + base_domain.len()
            &&& url.take(scheme) == "https://"@
            &&& url.subrange(scheme, scheme + subdomain.len()) == subdomain
            &&& url[scheme + subdomain.len()] == '.'
            &&& url.skip(scheme + subdomain.len() + 1) == base_domain
        }),
{
    reveal_strlit(".");
    let url = public_url(subdomain, base_domain);
    let scheme = "https://"@.len() as int;
    assert(url.take(scheme) =~= "https://"@);
    assert(url.subrange(scheme, scheme + subdomain.len()) =~= subdomain);
    assert(url.skip(scheme + subdomain.len() + 1) =~= base_domain);
}

/// Whether an outcome is the acceptance of just this subdomain, with its public URL.
pub open spec fn stands_with(
    outcome: (RegistrationView, RegistrationActionView),
    subdomain: Seq<char>,
    base_domain: Seq<char>,
) -> bool {
    outcome.0 is Done && outcome.1 == RegistrationActionView::Accept(
        AckView { subdomain, url: "https://"@ + subdomain + "."@ + base_domain },
    )
}

/// A client whose wish fits any one of its patterns gets its wish; one whose wish fits none, or
/// that has none, gets its only pattern where that is a concrete one, and is offered all of its
/// patterns otherwise.
pub proof fn law_grants(
    requested: Option<Seq<char>>,
    allowed: Seq<Seq<char>>,
    base_domain: Seq<char>,
    i: int,
)
    ensures
        ({
            let outcome = granted(requested, allowed, base_domain);
            let unfit = requested matches Some(wish) ==> forall|j: int|
                0 <= j < allowed.len() ==> !glob_matches(#[trigger] allowed[j], wish);
            let single = allowed.len() == 1 && !allowed[0].contains('*');
            &&& requested matches Some(wish) ==> (0 <= i < allowed.len() && glob_matches(
                allowed[i],
                wish,
            ) ==> stands_with(outcome, wish, base_domain))
            &&& unfit && single ==> stands_with(outcome, allowed[0], base_domain)
            &&& unfit && !single ==> outcome.0 == (RegistrationView::AwaitingPick { allowed })
                && outcome.1 == RegistrationActionView::Offer(allowed)
        }),
{
}

/// Under static tokens a client is answered by what its own token may use.
pub proof fn law_static_token_decides(
    tokens: Map<Seq<char>, Seq<Seq<char>>>,
    base_domain: Seq<char>,
    reg: RegisterRequest,
    pick: Option<SubdomainPick>,
)
    ensures
        ({
            let outcome = registration_step(
                AuthModeView::Static(tokens),
                base_domain,
                RegistrationView::AwaitingRequest,
                RegistrationEvent::Text { register: Some(reg), pick },
            );
            &&& tokens.contains_key(reg.token@) ==> outcome == granted(
                opt_text(reg.subdomain),
                tokens[reg.token@],
                base_domain,
            )
            &&& !tokens.contains_key(reg.token@) ==> outcome.0 is Done && outcome.1
                == RegistrationActionView::Reject("invalid token"@)
        }),
{
}

/// An open relay gives every client what it wishes for, and a client without a wish the subdomain
/// hashed from its token.
pub proof fn law_open_relay_grants_wishes(
    base_domain: Seq<char>,
    reg: RegisterRequest,
    pick: Option<SubdomainPick>,
)
    ensures
        ({
            let outcome = registration_step(
                AuthModeView::Open,
                base_domain,
                RegistrationView::AwaitingRequest,
                RegistrationEvent::Text { register: Some(reg), pick },
            );
            &&& reg.subdomain matches Some(wish) ==> stands_with(outcome, wish@, base_domain)
            &&& reg.subdomain is None ==> stands_with(
                outcome,
                hashed_subdomain(reg.token@),
                base_domain,
            )
        }),
{
}

/// Under a provider every client is asked about, with its own token and its own wish, and is then
/// answered by what the provider lists.
pub proof fn law_provider_decides(
    url: Seq<char>,
    secret: Seq<char>,
    base_domain: Seq<char>,
    reg: RegisterRequest,
    pick: Option<SubdomainPick>,
    list: Vec<String>,
)
    ensures
        ({
            let auth = AuthModeView::Provider { url, secret };
            let (state, action) = registration_step(
                auth,
                base_domain,
                RegistrationView::AwaitingRequest,
                RegistrationEvent::Text { register: Some(reg), pick },
            );
            &&& state == (RegistrationView::Verifying { requested: opt_text(reg.subdomain) })
            &&& action is Verify
            &&& action->Verify_url == url + "/api/verify"@
            &&& action->Verify_secret == secret
            &&& action->Verify_token == reg.token@
            &&& reg.subdomain matches Some(wish) ==> action->Verify_subdomain == wish@
            &&& reg.subdomain is None ==> action->Verify_subdomain.len() == 0
            &&& registration_step(
                auth,
                base_domain,
                state,
                RegistrationEvent::Verdict(Ok(list)),
            ) == granted(opt_text(reg.subdomain), list.deep_view(), base_domain)
        }),
{
}

/// A pick that fits any one of the patterns of the offer, the first and the last no less than the
/// others, is accepted as it stands; one that fits none of them is rejected, and told so.
pub proof fn law_picks_are_honoured(
    auth: AuthModeView,
    base_domain: Seq<char>,
    allowed: Seq<Seq<char>>,
    register: Option<RegisterRequest>,
    pick: SubdomainPick,
    i: int,
)
    ensures
        ({
            let outcome = registration_step(
                auth,
                base_domain,
                RegistrationView::AwaitingPick { allowed },
                RegistrationEvent::Text { register, pick: Some(pick) },
            );
            &&& 0 <= i < allowed.len() && glob_matches(allowed[i], pick.subdomain@) ==> stands_with(
                outcome,
                pick.subdomain@,
                base_domain,
            )
            &&& (forall|j: int|
                0 <= j < allowed.len() ==> !glob_matches(#[trigger] allowed[j], pick.subdomain@))
                ==> outcome.0 is Done && outcome.1 == RegistrationActionView::Reject(
                "subdomain '"@ + pick.subdomain@ + "' not authorized for this token"@,
            )
        }),
{
}

/// A provider's refusal and its failure are told, and end the registration.
pub proof fn law_provider_errors_are_told(
    auth: AuthModeView,
    base_domain: Seq<char>,
    requested: Option<Seq<char>>,
    e: AuthError,
)
    ensures
        ({
            let outcome = registration_step(
                auth,
                base_domain,
                RegistrationView::Verifying { requested },
                RegistrationEvent::Verdict(Err(e)),
            );
            &&& outcome.0 is Done
            &&& e matches AuthError::InvalidToken(reason) ==> outcome.1
                == RegistrationActionView::Reject(reason@)
            &&& e is ProviderUnavailable ==> outcome.1 == RegistrationActionView::Reject(
                "auth provider unavailable"@,
            )
        }),
{
}

/// Whether an outcome leaves the registration as it was and waits.
pub open spec fn waits(
    outcome: (RegistrationView, RegistrationActionView),
    state: RegistrationView,
) -> bool {
    outcome.0 == state && outcome.1 is Wait
}

/// A text that does not read as what is awaited is passed over, and so is any other frame before
/// the request; an offer that is answered by anything but a text, and a connection that ends, end
/// the registration without a word.
pub proof fn law_other_events(
    auth: AuthModeView,
    base_domain: Seq<char>,
    allowed: Seq<Seq<char>>,
    requested: Option<Seq<char>>,
    register: Option<RegisterRequest>,
    pick: Option<SubdomainPick>,
    ev: RegistrationEvent,
)
    ensures
        ({
            let start = RegistrationView::AwaitingRequest;
            let choosing = RegistrationView::AwaitingPick { allowed };
            let asking = RegistrationView::Verifying { requested };
            let over = (RegistrationView::Done, RegistrationActionView::Stop);
            let strange = RegistrationEvent::Text { register: None, pick };
            let again = RegistrationEvent::Text { register, pick: None };
            &&& waits(registration_step(auth, base_domain, start, strange), start)
            &&& waits(registration_step(auth, base_domain, choosing, again), choosing)
            &&& waits(registration_step(auth, base_domain, start, RegistrationEvent::Other), start)
            &&& registration_step(auth, base_domain, start, RegistrationEvent::Ended) == over
            &&& registration_step(auth, base_domain, choosing, RegistrationEvent::Other) == over
            &&& registration_step(auth, base_domain, choosing, RegistrationEvent::Ended) == over
            &&& registration_step(auth, base_domain, RegistrationView::Done, ev) == over
            &&& !(ev is Verdict) ==> waits(
                registration_step(auth, base_domain, asking, ev),
                asking,
            )
        }),
{
}

/// The content of a registration's state and of what the relay does is what they hold, as it
/// stands.
pub proof fn law_registration_views(state: Registration, action: RegistrationAction)
    ensures
        state is AwaitingRequest <==> state@ is AwaitingRequest,
        state is Done <==> state@ is Done,
        state matches Registration::Verifying { requested } ==> state@ is Verifying
            && state@->requested == opt_text(requested),
        state matches Registration::AwaitingPick { allowed } ==> state@ is AwaitingPick
            && state@->allowed == allowed.deep_view(),
        action is Wait <==> action@ is Wait,
        action is Stop <==> action@ is Stop,
        action matches RegistrationAction::Offer(offer) ==> action@
            == RegistrationActionView::Offer(offer.subdomains.deep_view()),
        action matches RegistrationAction::Accept(ack) ==> action@
            == RegistrationActionView::Accept(ack@),
        action matches RegistrationAction::Reject(reason) ==> action@
            == RegistrationActionView::Reject(reason@),
        action matches RegistrationAction::Verify(call) ==> action@ is Verify
            && action@->Verify_url == call.url@ && action@->Verify_secret == call.secret@
            && action@->Verify_token == call.token@ && action@->Verify_subdomain
            == call.subdomain@,
{
}

/// Taking a subdomain, and leaving one, concerns that subdomain alone; leaving frees it exactly
/// where the connection that leaves holds it.
pub proof fn law_tunnels_come_and_go(
    tunnels: Map<Seq<char>, u64>,
    subdomain: Seq<char>,
    conn: u64,
    other: Seq<char>,
)
    ensures
        claimed(tunnels, subdomain, conn).get(subdomain) == Some(conn),
        displaced(claimed(tunnels, subdomain, conn), subdomain) == Some(conn),
        tunnels.get(subdomain) == Some(conn) ==> displaced(tunnels, subdomain) == Some(conn),
        !tunnels.contains_key(subdomain) ==> displaced(tunnels, subdomain) is None,
        other != subdomain ==> claimed(tunnels, subdomain, conn).get(other) == tunnels.get(other),
        other != subdomain ==> left(tunnels, subdomain, conn).get(other) == tunnels.get(other),
        tunnels.get(subdomain) == Some(conn) ==> left(tunnels, subdomain, conn).get(
            subdomain,
        ) is None,
        tunnels.get(subdomain) != Some(conn) ==> left(tunnels, subdomain, conn).get(subdomain)
            == tunnels.get(subdomain),
{
}

} // verus!
