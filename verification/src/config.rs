//! The settings of a relay, from command-line values or from environment variables.

use crate::outside::{debug_form, debug_text};
use crate::protocol::opt_text;
use crate::string_map::StringMap;
use crate::text::{
    copy_texts, decimal, law_decimal_reads_back, law_parted, lemma_first_pos_is, parse_number,
    parsed_number, parted, pieces, same_text, split_all, split_once, trim, trimmed,
};
use vstd::prelude::*;
use vstd::string::*;

verus! {

/// The port where none is given.
pub const DEFAULT_PORT: u16 = 8080;

/// The limit on inbound request bodies where none is given: 5 MiB.
pub const DEFAULT_MAX_REQUEST_BODY: usize = 5 * 1024 * 1024;

/// The limit on tunneled response bodies where the command line gives none: 10 MiB.
pub const DEFAULT_MAX_RESPONSE_BODY: usize = 10 * 1024 * 1024;

/// The values of the command line.
pub struct Cli {
    /// Base domain for tunnel subdomains.
    pub domain: String,
    /// TCP listen port.
    pub port: u16,
    /// Static tokens, each `TOKEN:SUBDOMAIN[,SUBDOMAIN...]`.
    pub static_tokens: Vec<String>,
    /// Auth provider URL.
    pub auth_url: Option<String>,
    /// Shared secret for the auth provider.
    pub auth_secret: Option<String>,
    /// Max inbound request body in bytes.
    pub max_request_body: usize,
    /// Max tunneled response body in bytes.
    pub max_response_body: usize,
}

/// The settings of a relay.
pub struct RelayConfig {
    pub port: u16,
    pub relay_domain: String,
    pub auth_provider: Option<String>,
    pub auth_provider_secret: Option<String>,
    /// Static tokens, each with the subdomain patterns that it allows.
    pub tokens: StringMap<Vec<String>>,
    pub max_request_body_size: Option<usize>,
    pub max_response_body_size: Option<usize>,
}

/// The content of a [`RelayConfig`].
pub struct ConfigView {
    pub port: u16,
    pub relay_domain: Seq<char>,
    pub auth_provider: Option<Seq<char>>,
    pub auth_provider_secret: Option<Seq<char>>,
    pub tokens: Map<Seq<char>, Seq<Seq<char>>>,
    pub max_request_body_size: Option<usize>,
    pub max_response_body_size: Option<usize>,
}

impl View for RelayConfig {
    type V = ConfigView;

    open spec fn view(&self) -> ConfigView {
        ConfigView {
            port: self.port,
            relay_domain: self.relay_domain@,
            auth_provider: opt_text(self.auth_provider),
            auth_provider_secret: opt_text(self.auth_provider_secret),
            tokens: self.tokens@,
            max_request_body_size: self.max_request_body_size,
            max_response_body_size: self.max_response_body_size,
        }
    }
}

/// Whether a configuration that goes by an auth provider has the secret for it.
pub open spec fn provider_has_secret(config: ConfigView) -> bool {
    config.tokens == Map::<Seq<char>, Seq<Seq<char>>>::empty() && config.auth_provider is Some
        ==> config.auth_provider_secret is Some
}

// ---------------------------------------------------------------------------
// Command line
// ---------------------------------------------------------------------------

/// Why command-line values make no configuration.
pub enum ConfigError {
    /// Static tokens and an auth provider were both given.
    StaticAndProvider,
    /// A static token without a colon.
    TokenFormat(String),
    /// A static token that names no subdomain.
    NoSubdomains(String),
}

/// The content of a [`ConfigError`].
pub enum ConfigErrorView {
    StaticAndProvider,
    TokenFormat(Seq<char>),
    NoSubdomains(Seq<char>),
}

impl View for ConfigError {
    type V = ConfigErrorView;

    open spec fn view(&self) -> ConfigErrorView {
        match self {
            ConfigError::StaticAndProvider => ConfigErrorView::StaticAndProvider,
            ConfigError::TokenFormat(entry) => ConfigErrorView::TokenFormat(entry@),
            ConfigError::NoSubdomains(token) => ConfigErrorView::NoSubdomains(token@),
        }
    }
}

/// What is shown for a configuration error.
pub open spec fn config_error_text(e: ConfigErrorView) -> Seq<char> {
    match e {
        ConfigErrorView::StaticAndProvider =>
            "error: --static-token and --auth-url are mutually exclusive"@,
        ConfigErrorView::TokenFormat(entry) => "error: invalid --static-token format: "@ + entry
            + "\n  expected: TOKEN:SUBDOMAIN[,SUBDOMAIN...]"@,
        ConfigErrorView::NoSubdomains(token) => "error: --static-token "@ + debug_form(token)
            + " has no subdomains"@,
    }
}

impl ConfigError {
    /// What is shown for the error.
    pub fn message(&self) -> (m: String)
        ensures
            m@ == config_error_text(self@),
    {
        match self {
            ConfigError::StaticAndProvider =>
                "error: --static-token and --auth-url are mutually exclusive".to_string(),
            ConfigError::TokenFormat(entry) => {
                let mut m: String = "error: invalid --static-token format: ".to_string();
                m.append(entry);
                m.append("\n  expected: TOKEN:SUBDOMAIN[,SUBDOMAIN...]");
                m
            },
            ConfigError::NoSubdomains(token) => {
                let mut m: String = "error: --static-token ".to_string();
                m.append(&debug_text(token));
                m.append(" has no subdomains");
                m
            },
        }
    }
}

/// The pieces without white space at their ends, and without those that are then empty.
pub open spec fn cleaned(parts: Seq<Seq<char>>) -> Seq<Seq<char>>
    decreases parts.len(),
{
    if parts.len() == 0 {
        Seq::empty()
    } else {
        let before = cleaned(parts.drop_last());
        let last = trimmed(parts.last());
        if last.len() == 0 {
            before
        } else {
            before.push(last)
        }
    }
}

/// The token and the patterns that one entry `TOKEN:SUBDOMAIN[,SUBDOMAIN...]` names.
pub open spec fn token_entry(entry: Seq<char>) -> Result<
    (Seq<char>, Seq<Seq<char>>),
    ConfigErrorView,
> {
    match parted(entry, ':') {
        None => Err(ConfigErrorView::TokenFormat(entry)),
        Some((token, subs)) => {
            let patterns = cleaned(pieces(subs, ','));
            if patterns.len() == 0 {
                Err(ConfigErrorView::NoSubdomains(token))
            } else {
                Ok((token, patterns))
            }
        },
    }
}

/// The tokens that a list of entries names. The first entry that is wrong decides the error, and
/// a later entry for the same token replaces an earlier one.
pub open spec fn parsed_tokens(entries: Seq<Seq<char>>) -> Result<
    Map<Seq<char>, Seq<Seq<char>>>,
    ConfigErrorView,
>
    decreases entries.len(),
{
    if entries.len() == 0 {
        Ok(Map::empty())
    } else {
        match parsed_tokens(entries.drop_last()) {
            Err(e) => Err(e),
            Ok(before) => match token_entry(entries.last()) {
                Err(e) => Err(e),
                Ok((token, patterns)) => Ok(before.insert(token, patterns)),
            },
        }
    }
}

/// The content of a result of reading tokens.
pub open spec fn tokens_result(r: Result<StringMap<Vec<String>>, ConfigError>) -> Result<
    Map<Seq<char>, Seq<Seq<char>>>,
    ConfigErrorView,
> {
    match r {
        Ok(m) => Ok(m@),
        Err(e) => Err(e@),
    }
}

/// The pieces without white space at their ends, and without those that are then empty.
fn clean(parts: &Vec<String>) -> (out: Vec<String>)
    ensures
        out.deep_view() == cleaned(parts.deep_view()),
{
    let mut out: Vec<String> = Vec::new();
    let mut i: usize = 0;
    let ghost all = parts.deep_view();
    assert(out.deep_view() =~= cleaned(all.take(0)));
    while i < parts.len()
        invariant
            i <= parts@.len(),
            all == parts.deep_view(),
            out.deep_view() == cleaned(all.take(i as int)),
        decreases parts@.len() - i,
    {
        assert(all.take(i + 1).drop_last() == all.take(i as int));
        assert(all.take(i + 1).last() == parts@[i as int]@);
        let part = trim(&parts[i]);
        let ghost before = out.deep_view();
        let ghost part_text = part@;
        if !part.as_str().is_empty() {
            out.push(part);
            assert(out.deep_view() =~= before.push(part_text));
        }
        i = i + 1;
    }
    assert(all.take(i as int) == all);
    out
}

proof fn lemma_first_error(entries: Seq<Seq<char>>, i: int)
    requires
        0 <= i <= entries.len(),
        parsed_tokens(entries.take(i)) is Err,
    ensures
        parsed_tokens(entries) == parsed_tokens(entries.take(i)),
    decreases entries.len() - i,
{
    if i < entries.len() {
        assert(entries.take(i + 1).drop_last() == entries.take(i));
        lemma_first_error(entries, i + 1);
    } else {
        assert(entries.take(i) == entries);
    }
}

/// The tokens that a list of entries `TOKEN:SUBDOMAIN[,SUBDOMAIN...]` names.
pub fn parse_tokens(entries: &Vec<String>) -> (r: Result<StringMap<Vec<String>>, ConfigError>)
    ensures
        tokens_result(r) == parsed_tokens(entries.deep_view()),
{
    let mut map: StringMap<Vec<String>> = StringMap::new();
    let mut i: usize = 0;
    let ghost all = entries.deep_view();
    while i < entries.len()
        invariant
            i <= entries@.len(),
            all == entries.deep_view(),
            parsed_tokens(all.take(i as int)) == Ok::<_, ConfigErrorView>(map@),
        decreases entries@.len() - i,
    {
        let entry = &entries[i];
        assert(all.take(i + 1).drop_last() == all.take(i as int));
        assert(all.take(i + 1).last() == entry@);
        match split_once(entry, ':') {
            None => {
                proof {
                    lemma_first_error(all, i + 1);
                }
                return Err(ConfigError::TokenFormat(entry.clone()));
            },
            Some((token, subs)) => {
                let patterns = clean(&split_all(&subs, ','));
                if patterns.is_empty() {
                    proof {
                        lemma_first_error(all, i + 1);
                    }
                    return Err(ConfigError::NoSubdomains(token));
                }
                map.insert(token, patterns);
            },
        }
        i = i + 1;
    }
    assert(all.take(i as int) == all);
    Ok(map)
}

/// The configuration that command-line values make.
pub open spec fn loaded(cli: Cli) -> Result<ConfigView, ConfigErrorView> {
    if cli.static_tokens@.len() > 0 && cli.auth_url is Some {
        Err(ConfigErrorView::StaticAndProvider)
    } else {
        match parsed_tokens(cli.static_tokens.deep_view()) {
            Err(e) => Err(e),
            Ok(tokens) => Ok(
                ConfigView {
                    port: cli.port,
                    relay_domain: cli.domain@,
                    auth_provider: opt_text(cli.auth_url),
                    auth_provider_secret: opt_text(cli.auth_secret),
                    tokens,
                    max_request_body_size: Some(cli.max_request_body),
                    max_response_body_size: Some(cli.max_response_body),
                },
            ),
        }
    }
}

/// The configuration that command-line values make. Static tokens and an auth provider exclude
/// each other.
pub fn load(cli: Cli) -> (r: Result<RelayConfig, ConfigError>)
    ensures
        match r {
            Ok(config) => loaded(cli) == Ok::<_, ConfigErrorView>(config@),
            Err(e) => loaded(cli) == Err::<ConfigView, _>(e@),
        },
{
    if !cli.static_tokens.is_empty() && cli.auth_url.is_some() {
        return Err(ConfigError::StaticAndProvider);
    }
    match parse_tokens(&cli.static_tokens) {
        Err(e) => Err(e),
        Ok(tokens) => Ok(
            RelayConfig {
                port: cli.port,
                relay_domain: cli.domain,
                auth_provider: cli.auth_url,
                auth_provider_secret: cli.auth_secret,
                tokens,
                max_request_body_size: Some(cli.max_request_body),
                max_response_body_size: Some(cli.max_response_body),
            },
        ),
    }
}

// ---------------------------------------------------------------------------
// Environment
// ---------------------------------------------------------------------------

/// One entry of the token list in `MCPR_RELAY_TOKENS`.
pub struct TokenEntry {
    pub token: String,
    pub subdomains: Vec<String>,
}

impl DeepView for TokenEntry {
    type V = (Seq<char>, Seq<Seq<char>>);

    open spec fn deep_view(&self) -> (Seq<char>, Seq<Seq<char>>) {
        (self.token@, self.subdomains.deep_view())
    }
}

/// What the variable `MCPR_RELAY_TOKENS` holds.
pub enum TokensVar {
    Unset,
    /// A JSON array of entries.
    Entries(Vec<TokenEntry>),
    /// Something else; the text says why it could not be read.
    Malformed(String),
}

/// The environment variables of a relay, each as its text where it is set.
pub struct RelayEnv {
    /// `MCPR_RELAY_PORT`
    pub port: Option<String>,
    /// `MCPR_RELAY_DOMAIN`
    pub domain: Option<String>,
    /// `MCPR_RELAY_AUTH_MODE`
    pub auth_mode: Option<String>,
    /// `MCPR_RELAY_AUTH_URL`
    pub auth_url: Option<String>,
    /// `MCPR_RELAY_AUTH_SECRET`
    pub auth_secret: Option<String>,
    /// `MCPR_RELAY_TOKENS`
    pub tokens: TokensVar,
    /// `MCPR_RELAY_MAX_REQUEST_BODY`
    pub max_request_body: Option<String>,
    /// `MCPR_RELAY_MAX_RESPONSE_BODY`
    pub max_response_body: Option<String>,
}

/// Why an environment makes no configuration.
pub enum EnvError {
    MissingDomain,
    MissingAuthUrl,
    MissingAuthSecret,
    UnknownAuthMode(String),
    MalformedTokens(String),
}

/// The content of an [`EnvError`].
pub enum EnvErrorView {
    MissingDomain,
    MissingAuthUrl,
    MissingAuthSecret,
    UnknownAuthMode(Seq<char>),
    MalformedTokens(Seq<char>),
}

impl View for EnvError {
    type V = EnvErrorView;

    open spec fn view(&self) -> EnvErrorView {
        match self {
            EnvError::MissingDomain => EnvErrorView::MissingDomain,
            EnvError::MissingAuthUrl => EnvErrorView::MissingAuthUrl,
            EnvError::MissingAuthSecret => EnvErrorView::MissingAuthSecret,
            EnvError::UnknownAuthMode(mode) => EnvErrorView::UnknownAuthMode(mode@),
            EnvError::MalformedTokens(why) => EnvErrorView::MalformedTokens(why@),
        }
    }
}

/// What is shown for an error in the environment.
pub open spec fn env_error_text(e: EnvErrorView) -> Seq<char> {
    match e {
        EnvErrorView::MissingDomain => "error: MCPR_RELAY_DOMAIN is required"@,
        EnvErrorView::MissingAuthUrl =>
            "error: MCPR_RELAY_AUTH_URL is required when MCPR_RELAY_AUTH_MODE=provider"@,
        EnvErrorView::MissingAuthSecret =>
            "error: MCPR_RELAY_AUTH_SECRET is required when MCPR_RELAY_AUTH_MODE=provider"@,
        EnvErrorView::UnknownAuthMode(mode) => "error: unknown MCPR_RELAY_AUTH_MODE: "@ + mode
            + " (expected: open, static, provider)"@,
        EnvErrorView::MalformedTokens(why) => "error: failed to parse MCPR_RELAY_TOKENS: "@ + why
            + "\n  expected: [{\"token\":\"tok_abc\",\"subdomains\":[\"myapp\",\"myapp-*\"]}]"@,
    }
}

impl EnvError {
    /// What is shown for the error.
    pub fn message(&self) -> (m: String)
        ensures
            m@ == env_error_text(self@),
    {
        match self {
            EnvError::MissingDomain => "error: MCPR_RELAY_DOMAIN is required".to_string(),
            EnvError::MissingAuthUrl =>
                "error: MCPR_RELAY_AUTH_URL is required when MCPR_RELAY_AUTH_MODE=provider".to_string(),
            EnvError::MissingAuthSecret =>
                "error: MCPR_RELAY_AUTH_SECRET is required when MCPR_RELAY_AUTH_MODE=provider".to_string(),
            EnvError::UnknownAuthMode(mode) => {
                let mut m: String = "error: unknown MCPR_RELAY_AUTH_MODE: ".to_string();
                m.append(mode);
                m.append(" (expected: open, static, provider)");
                m
            },
            EnvError::MalformedTokens(why) => {
                let mut m: String = "error: failed to parse MCPR_RELAY_TOKENS: ".to_string();
                m.append(why);
                m.append(
                    "\n  expected: [{\"token\":\"tok_abc\",\"subdomains\":[\"myapp\",\"myapp-*\"]}]",
                );
                m
            },
        }
    }
}

/// The number that a variable holds, where it is set and holds one of at most `max`.
pub open spec fn number_var(var: Option<String>, max: nat) -> Option<nat> {
    match var {
        Some(text) => parsed_number(text@, max),
        None => None,
    }
}

fn read_number(var: &Option<String>, max: u64) -> (r: Option<u64>)
    ensures
        match r {
            Some(n) => number_var(*var, max as nat) == Some(n as nat),
            None => number_var(*var, max as nat) is None,
        },
{
    match var {
        Some(text) => parse_number(text, max),
        None => None,
    }
}

/// The size that a variable holds, where it is set and holds one.
pub open spec fn size_var(var: Option<String>) -> Option<usize> {
    match number_var(var, usize::MAX as nat) {
        Some(n) => Some(n as usize),
        None => None,
    }
}

fn read_size(var: &Option<String>) -> (r: Option<usize>)
    ensures
        r == size_var(*var),
{
    match read_number(var, usize::MAX as u64) {
        Some(n) => Some(n as usize),
        None => None,
    }
}

/// The tokens that a list of entries names; a later entry for the same token replaces an earlier
/// one.
pub open spec fn listed_tokens(entries: Seq<(Seq<char>, Seq<Seq<char>>)>) -> Map<
    Seq<char>,
    Seq<Seq<char>>,
>
    decreases entries.len(),
{
    if entries.len() == 0 {
        Map::empty()
    } else {
        listed_tokens(entries.drop_last()).insert(entries.last().0, entries.last().1)
    }
}

/// The tokens of the variable `MCPR_RELAY_TOKENS`: none where it is unset.
pub open spec fn tokens_var(var: TokensVar) -> Result<
    Map<Seq<char>, Seq<Seq<char>>>,
    EnvErrorView,
> {
    match var {
        TokensVar::Unset => Ok(Map::empty()),
        TokensVar::Entries(entries) => Ok(listed_tokens(entries.deep_view())),
        TokensVar::Malformed(why) => Err(EnvErrorView::MalformedTokens(why@)),
    }
}

/// The tokens of the variable `MCPR_RELAY_TOKENS`.
pub fn parse_tokens_env(var: TokensVar) -> (r: Result<StringMap<Vec<String>>, EnvError>)
    ensures
        match r {
            Ok(m) => tokens_var(var) == Ok::<_, EnvErrorView>(m@),
            Err(e) => tokens_var(var) == Err::<Map<Seq<char>, Seq<Seq<char>>>, _>(e@),
        },
{
    match var {
        TokensVar::Unset => Ok(StringMap::new()),
        TokensVar::Malformed(why) => Err(EnvError::MalformedTokens(why)),
        TokensVar::Entries(entries) => {
            let mut map: StringMap<Vec<String>> = StringMap::new();
            let ghost all = entries.deep_view();
            let mut i: usize = 0;
            while i < entries.len()
                invariant
                    i <= entries@.len(),
                    all == entries.deep_view(),
                    map@ == listed_tokens(all.take(i as int)),
                decreases entries@.len() - i,
            {
                assert(all.take(i + 1).drop_last() == all.take(i as int));
                assert(all.take(i + 1).last() == entries@[i as int].deep_view());
                let subdomains = copy_texts(&entries[i].subdomains);
                map.insert(entries[i].token.clone(), subdomains);
                i = i + 1;
            }
            assert(all.take(i as int) == all);
            Ok(map)
        },
    }
}

/// The auth provider and its secret that the environment selects.
pub open spec fn env_provider(env: RelayEnv) -> Result<
    (Option<Seq<char>>, Option<Seq<char>>),
    EnvErrorView,
> {
    let mode = match env.auth_mode {
        Some(mode) => mode@,
        None => "open"@,
    };
    if mode == "provider"@ {
        match (env.auth_url, env.auth_secret) {
            (None, _) => Err(EnvErrorView::MissingAuthUrl),
            (Some(_), None) => Err(EnvErrorView::MissingAuthSecret),
            (Some(url), Some(secret)) => Ok((Some(url@), Some(secret@))),
        }
    } else if mode == "open"@ || mode == "static"@ {
        Ok((None, None))
    } else {
        Err(EnvErrorView::UnknownAuthMode(mode))
    }
}

/// The configuration that an environment makes. A missing domain is reported first, then what is
/// wrong with the auth mode, then what is wrong with the tokens. Numbers that cannot be read
/// count as unset.
pub open spec fn env_loaded(env: RelayEnv) -> Result<ConfigView, EnvErrorView> {
    match (env.domain, env_provider(env), tokens_var(env.tokens)) {
        (None, _, _) => Err(EnvErrorView::MissingDomain),
        (Some(_), Err(e), _) => Err(e),
        (Some(_), Ok(_), Err(e)) => Err(e),
        (Some(domain), Ok((url, secret)), Ok(tokens)) => Ok(
            ConfigView {
                port: match number_var(env.port, u16::MAX as nat) {
                    Some(n) => n as u16,
                    None => DEFAULT_PORT,
                },
                relay_domain: domain@,
                auth_provider: url,
                auth_provider_secret: secret,
                tokens,
                max_request_body_size: size_var(env.max_request_body),
                max_response_body_size: size_var(env.max_response_body),
            },
        ),
    }
}

/// The configuration that an environment makes.
pub fn load_from_env(env: RelayEnv) -> (r: Result<RelayConfig, EnvError>)
    ensures
        match r {
            Ok(config) => env_loaded(env) == Ok::<_, EnvErrorView>(config@),
            Err(e) => env_loaded(env) == Err::<ConfigView, _>(e@),
        },
{
    let port: u16 = match read_number(&env.port, u16::MAX as u64) {
        Some(n) => n as u16,
        None => DEFAULT_PORT,
    };
    let relay_domain = match env.domain {
        Some(domain) => domain,
        None => {
            return Err(EnvError::MissingDomain);
        },
    };
    let mode: String = match env.auth_mode {
        Some(mode) => mode,
        None => "open".to_string(),
    };
    let (auth_provider, auth_provider_secret): (Option<String>, Option<String>) = if same_text(
        &mode,
        "provider",
    ) {
        match env.auth_url {
            None => {
                return Err(EnvError::MissingAuthUrl);
            },
            Some(url) => match env.auth_secret {
                None => {
                    return Err(EnvError::MissingAuthSecret);
                },
                Some(secret) => (Some(url), Some(secret)),
            },
        }
    } else if same_text(&mode, "open") || same_text(&mode, "static") {
        (None, None)
    } else {
        return Err(EnvError::UnknownAuthMode(mode));
    };
    let tokens = match parse_tokens_env(env.tokens) {
        Ok(tokens) => tokens,
        Err(e) => {
            return Err(e);
        },
    };
    Ok(
        RelayConfig {
            port,
            relay_domain,
            auth_provider,
            auth_provider_secret,
            tokens,
            max_request_body_size: read_size(&env.max_request_body),
            max_response_body_size: read_size(&env.max_response_body),
        },
    )
}

// ---------------------------------------------------------------------------
// Laws
// ---------------------------------------------------------------------------

proof fn lemma_cleaned(parts: Seq<Seq<char>>)
    ensures
        forall|i: int| 0 <= i < cleaned(parts).len() ==> (#[trigger] cleaned(parts)[i]).len() > 0,
    decreases parts.len(),
{
    if parts.len() > 0 {
        let before = cleaned(parts.drop_last());
        lemma_cleaned(parts.drop_last());
        assert forall|i: int| 0 <= i < cleaned(parts).len() implies (#[trigger] cleaned(
            parts,
        )[i]).len() > 0 by {
            if i < before.len() {
                assert(cleaned(parts)[i] == before[i]);
            }
        }
    }
}

/// Every static token has at least one pattern, and no pattern is empty.
pub proof fn law_tokens_have_patterns(entries: Seq<Seq<char>>, token: Seq<char>)
    requires
        parsed_tokens(entries) is Ok,
        parsed_tokens(entries)->Ok_0.contains_key(token),
    ensures
        parsed_tokens(entries)->Ok_0[token].len() > 0,
        forall|i: int|
            0 <= i < parsed_tokens(entries)->Ok_0[token].len() ==> (#[trigger] parsed_tokens(
                entries,
            )->Ok_0[token][i]).len() > 0,
    decreases entries.len(),
{
    let last = token_entry(entries.last())->Ok_0;
    lemma_cleaned(pieces(parted(entries.last(), ':')->Some_0.1, ','));
    if last.0 != token {
        law_tokens_have_patterns(entries.drop_last(), token);
    }
}

/// The last entry for a token is the one that counts.
pub proof fn law_last_entry_counts(entries: Seq<Seq<char>>, entry: Seq<char>)
    requires
        parsed_tokens(entries.push(entry)) is Ok,
    ensures
        token_entry(entry) is Ok,
        parsed_tokens(entries) is Ok,
        parsed_tokens(entries.push(entry))->Ok_0 == parsed_tokens(entries)->Ok_0.insert(
            token_entry(entry)->Ok_0.0,
            token_entry(entry)->Ok_0.1,
        ),
{
    assert(entries.push(entry).drop_last() == entries);
}

/// A configuration from the command line never has both static tokens and an auth provider, and
/// has static tokens exactly where entries were given.
pub proof fn law_modes_exclude_each_other(cli: Cli)
    requires
        loaded(cli) is Ok,
    ensures
        loaded(cli)->Ok_0.tokens == Map::<Seq<char>, Seq<Seq<char>>>::empty() || loaded(
            cli,
        )->Ok_0.auth_provider is None,
        cli.static_tokens@.len() > 0 <==> loaded(cli)->Ok_0.tokens != Map::<
            Seq<char>,
            Seq<Seq<char>>,
        >::empty(),
{
    let entries = cli.static_tokens.deep_view();
    if entries.len() > 0 {
        let token = token_entry(entries.last())->Ok_0.0;
        assert(parsed_tokens(entries)->Ok_0.contains_key(token));
    }
}

/// Where the command line gives a secret with every auth provider, the configuration that it makes
/// has the secret for its provider, so a relay can be built with it.
pub proof fn law_cli_provider_has_secret(cli: Cli)
    requires
        cli.auth_url is Some ==> cli.auth_secret is Some,
        loaded(cli) is Ok,
    ensures
        provider_has_secret(loaded(cli)->Ok_0),
{
}

/// An environment configuration that names an auth provider names its secret too, so a relay can
/// be built with it.
pub proof fn law_env_provider_has_secret(env: RelayEnv)
    requires
        env_loaded(env) is Ok,
    ensures
        env_loaded(env)->Ok_0.auth_provider is Some <==> env_loaded(
            env,
        )->Ok_0.auth_provider_secret is Some,
        provider_has_secret(env_loaded(env)->Ok_0),
{
}

// ---------------------------------------------------------------------------
// How settings are read
// ---------------------------------------------------------------------------

/// Cleaning looks at each piece for itself and keeps their order; a piece is kept without the white
/// space around it, unless nothing is then left.
pub proof fn law_cleaned(a: Seq<Seq<char>>, b: Seq<Seq<char>>, piece: Seq<char>)
    ensures
        cleaned(a + b) == cleaned(a) + cleaned(b),
        trimmed(piece).len() > 0 ==> cleaned(seq![piece]) == seq![trimmed(piece)],
        trimmed(piece).len() == 0 ==> cleaned(seq![piece]) == Seq::<Seq<char>>::empty(),
    decreases b.len(),
{
    reveal_with_fuel(cleaned, 2);
    assert(seq![piece].drop_last() =~= Seq::empty());
    assert(cleaned(seq![piece].drop_last()) =~= Seq::empty());
    if b.len() == 0 {
        assert(a + b =~= a);
        assert(cleaned(a) + cleaned(b) =~= cleaned(a));
    } else {
        assert((a + b).drop_last() =~= a + b.drop_last());
        law_cleaned(a, b.drop_last(), piece);
        assert(cleaned(a + b) =~= cleaned(a) + cleaned(b));
    }
}

/// An entry is a token, a colon and subdomains: the token is all that stands before the first
/// colon, and the patterns are the cleaned pieces between commas behind it. Without a colon, or
/// without a pattern, it is an error that names the entry or the token.
pub proof fn law_token_entry(token: Seq<char>, subs: Seq<char>, entry: Seq<char>)
    ensures
        !token.contains(':') ==> ({
            let read = token_entry(token.push(':') + subs);
            let patterns = cleaned(pieces(subs, ','));
            &&& patterns.len() > 0 ==> read == Ok::<_, ConfigErrorView>((token, patterns))
            &&& patterns.len() == 0 ==> read is Err && read->Err_0
                == ConfigErrorView::NoSubdomains(token)
        }),
        !entry.contains(':') ==> token_entry(entry) is Err && token_entry(entry)->Err_0
            == ConfigErrorView::TokenFormat(entry),
{
    law_parted(entry, ':');
    if !token.contains(':') {
        let whole = token.push(':') + subs;
        assert forall|j: int| 0 <= j < token.len() implies whole[j] != ':' by {
            assert(whole[j] == token[j]);
            assert(token.contains(token[j]));
        }
        lemma_first_pos_is(whole, ':', token.len() as int);
        assert(whole.take(token.len() as int) =~= token);
        assert(whole.skip(token.len() as int + 1) =~= subs);
    }
}

/// No entries make no tokens; one more entry adds its token, or replaces what its token had, and
/// changes no other; and the first wrong entry decides the error.
pub proof fn law_one_more_entry(entries: Seq<Seq<char>>, entry: Seq<char>, other: Seq<char>)
    ensures
        parsed_tokens(Seq::empty()) == Ok::<_, ConfigErrorView>(
            Map::<Seq<char>, Seq<Seq<char>>>::empty(),
        ),
        ({
            let before = parsed_tokens(entries);
            let after = parsed_tokens(entries.push(entry));
            &&& before is Err ==> after is Err && after->Err_0 == before->Err_0
            &&& before is Ok && token_entry(entry) is Err ==> after is Err && after->Err_0
                == token_entry(entry)->Err_0
            &&& before is Ok && token_entry(entry) is Ok ==> after is Ok && after->Ok_0.get(
                token_entry(entry)->Ok_0.0,
            ) == Some(token_entry(entry)->Ok_0.1) && (other != token_entry(entry)->Ok_0.0
                ==> after->Ok_0.get(other) == before->Ok_0.get(other))
        }),
{
    assert(entries.push(entry).drop_last() =~= entries);
}

/// The command line's values stand in the configuration as they were given. It fails where static
/// tokens and a provider were both given, and where an entry is wrong, and nowhere else.
pub proof fn law_command_line(cli: Cli)
    ensures
        ({
            let entries = cli.static_tokens.deep_view();
            let both = cli.static_tokens@.len() > 0 && cli.auth_url is Some;
            let out = loaded(cli);
            &&& both ==> out is Err && out->Err_0 is StaticAndProvider
            &&& !both && parsed_tokens(entries) is Err ==> out is Err && out->Err_0
                == parsed_tokens(entries)->Err_0
            &&& !both && parsed_tokens(entries) is Ok ==> out is Ok
            &&& out matches Ok(c) ==> {
                &&& c.port == cli.port
                &&& c.relay_domain == cli.domain@
                &&& cli.auth_url is None <==> c.auth_provider is None
                &&& cli.auth_url matches Some(url) ==> c.auth_provider == Some(url@)
                &&& cli.auth_secret is None <==> c.auth_provider_secret is None
                &&& cli.auth_secret matches Some(secret) ==> c.auth_provider_secret == Some(secret@)
                &&& c.tokens == parsed_tokens(entries)->Ok_0
                &&& c.max_request_body_size == Some(cli.max_request_body)
                &&& c.max_response_body_size == Some(cli.max_response_body)
            }
        }),
{
}

/// A variable that is set to the digits of a number within bounds is that number; one that is
/// unset, or set to anything else, is none.
pub proof fn law_number_variables(text: String, n: nat, max: nat)
    ensures
        number_var(None, max) is None,
        size_var(None) is None,
        text@ == decimal(n) && n <= max ==> number_var(Some(text), max) == Some(n),
        text@ == decimal(n) && n <= usize::MAX ==> size_var(Some(text)) == Some(n as usize),
        parsed_number(text@, max) is None ==> number_var(Some(text), max) is None,
        parsed_number(text@, usize::MAX as nat) is None ==> size_var(Some(text)) is None,
{
    law_decimal_reads_back(n, max);
    law_decimal_reads_back(n, usize::MAX as nat);
}

/// No listed entries make no tokens; one more listed entry stands as it was listed, in place of
/// what its token had, and changes no other token.
pub proof fn law_one_more_listed_entry(
    entries: Seq<(Seq<char>, Seq<Seq<char>>)>,
    token: Seq<char>,
    patterns: Seq<Seq<char>>,
    other: Seq<char>,
)
    ensures
        listed_tokens(Seq::empty()) == Map::<Seq<char>, Seq<Seq<char>>>::empty(),
        listed_tokens(entries.push((token, patterns))).get(token) == Some(patterns),
        other != token ==> listed_tokens(entries.push((token, patterns))).get(other)
            == listed_tokens(entries).get(other),
{
    assert(entries.push((token, patterns)).drop_last() =~= entries);
}

/// The variable of tokens gives none where it is unset, what it lists where it can be read, and
/// the reason where it cannot.
pub proof fn law_tokens_variable(entries: Vec<TokenEntry>, why: String)
    ensures
        tokens_var(TokensVar::Unset) == Ok::<_, EnvErrorView>(
            Map::<Seq<char>, Seq<Seq<char>>>::empty(),
        ),
        tokens_var(TokensVar::Entries(entries)) == Ok::<_, EnvErrorView>(
            listed_tokens(entries.deep_view()),
        ),
        tokens_var(TokensVar::Malformed(why)) is Err,
        tokens_var(TokensVar::Malformed(why))->Err_0 == EnvErrorView::MalformedTokens(why@),
{
}

/// The content of a listed entry is its token and its patterns, as they stand.
pub proof fn law_listed_content(entry: TokenEntry)
    ensures
        entry.deep_view().0 == entry.token@,
        entry.deep_view().1 == entry.subdomains.deep_view(),
{
}

/// The mode `provider` takes the URL and the secret as they are set and fails where one is missing,
/// the URL first; the modes `open` and `static`, and an unset mode, take neither; and any other
/// mode fails by its name.
pub proof fn law_environment_mode(env: RelayEnv)
    ensures
        ({
            let mode = match env.auth_mode {
                Some(m) => m@,
                None => "open"@,
            };
            let out = env_provider(env);
            &&& mode == "provider"@ && env.auth_url is None ==> out is Err
                && out->Err_0 is MissingAuthUrl
            &&& mode == "provider"@ && env.auth_url is Some && env.auth_secret is None
                ==> out is Err && out->Err_0 is MissingAuthSecret
            &&& mode == "provider"@ ==> (env.auth_url matches Some(url) ==> (
            env.auth_secret matches Some(secret) ==> out is Ok && out->Ok_0.0 == Some(url@)
                && out->Ok_0.1 == Some(secret@)))
            &&& mode != "provider"@ && (mode == "open"@ || mode == "static"@) ==> out is Ok
                && out->Ok_0.0 is None && out->Ok_0.1 is None
            &&& mode != "provider"@ && mode != "open"@ && mode != "static"@ ==> out is Err
                && out->Err_0 == EnvErrorView::UnknownAuthMode(mode)
        }),
{
}

/// The environment's values stand in the configuration as they were set, with port 8080 where no
/// port can be read. It fails for a missing domain, for what is wrong with the mode, and for what
/// is wrong with the tokens, in this order, and for nothing else.
pub proof fn law_environment(env: RelayEnv)
    ensures
        ({
            let out = env_loaded(env);
            let mode = env_provider(env);
            let tokens = tokens_var(env.tokens);
            &&& env.domain is None ==> out is Err && out->Err_0 is MissingDomain
            &&& env.domain is Some && mode is Err ==> out is Err && out->Err_0 == mode->Err_0
            &&& env.domain is Some && mode is Ok && tokens is Err ==> out is Err && out->Err_0
                == tokens->Err_0
            &&& env.domain matches Some(domain) ==> (mode is Ok && tokens is Ok ==> {
                &&& out is Ok
                &&& out->Ok_0.relay_domain == domain@
                &&& out->Ok_0.auth_provider == mode->Ok_0.0
                &&& out->Ok_0.auth_provider_secret == mode->Ok_0.1
                &&& out->Ok_0.tokens == tokens->Ok_0
                &&& number_var(env.port, 65535) matches Some(n) ==> out->Ok_0.port == n
                &&& number_var(env.port, 65535) is None ==> out->Ok_0.port == 8080
                &&& out->Ok_0.max_request_body_size == size_var(env.max_request_body)
                &&& out->Ok_0.max_response_body_size == size_var(env.max_response_body)
            })
        }),
{
    if let Some(text) = env.port {
        assert(number_var(env.port, 65535) matches Some(n) ==> n <= 65535);
    }
}

/// What is shown for an error names what was wrong, whole.
pub proof fn law_error_texts(what: Seq<char>)
    ensures
        config_error_text(ConfigErrorView::StaticAndProvider)
            == "error: --static-token and --auth-url are mutually exclusive"@,
        config_error_text(ConfigErrorView::TokenFormat(what))
            == "error: invalid --static-token format: "@ + what
            + "\n  expected: TOKEN:SUBDOMAIN[,SUBDOMAIN...]"@,
        config_error_text(ConfigErrorView::NoSubdomains(what)) == "error: --static-token "@
            + debug_form(what) + " has no subdomains"@,
        env_error_text(EnvErrorView::MissingDomain) == "error: MCPR_RELAY_DOMAIN is required"@,
        env_error_text(EnvErrorView::UnknownAuthMode(what))
            == "error: unknown MCPR_RELAY_AUTH_MODE: "@ + what
            + " (expected: open, static, provider)"@,
        env_error_text(EnvErrorView::MalformedTokens(what))
            == "error: failed to parse MCPR_RELAY_TOKENS: "@ + what
            + "\n  expected: [{\"token\":\"tok_abc\",\"subdomains\":[\"myapp\",\"myapp-*\"]}]"@,
{
}

/// The content of a configuration and of an error is what they hold, as it stands.
pub proof fn law_config_content(config: RelayConfig, e: ConfigError, f: EnvError)
    ensures
        config@.port == config.port,
        config@.relay_domain == config.relay_domain@,
        config@.auth_provider == opt_text(config.auth_provider),
        config@.auth_provider_secret == opt_text(config.auth_provider_secret),
        config@.tokens == config.tokens@,
        config@.max_request_body_size == config.max_request_body_size,
        config@.max_response_body_size == config.max_response_body_size,
        e is StaticAndProvider <==> e@ is StaticAndProvider,
        e matches ConfigError::TokenFormat(entry) ==> e@ == ConfigErrorView::TokenFormat(entry@),
        e matches ConfigError::NoSubdomains(token) ==> e@ == ConfigErrorView::NoSubdomains(token@),
        tokens_result(Err(e)) is Err,
        tokens_result(Err(e))->Err_0 == e@,
        tokens_result(Ok(config.tokens)) is Ok,
        tokens_result(Ok(config.tokens))->Ok_0 == config.tokens@,
        f is MissingDomain <==> f@ is MissingDomain,
        f is MissingAuthUrl <==> f@ is MissingAuthUrl,
        f is MissingAuthSecret <==> f@ is MissingAuthSecret,
        f matches EnvError::UnknownAuthMode(mode) ==> f@ == EnvErrorView::UnknownAuthMode(mode@),
        f matches EnvError::MalformedTokens(why) ==> f@ == EnvErrorView::MalformedTokens(why@),
{
}

} // verus!
