//! Which subdomains a token may use: patterns, and the replies of an auth provider.

use crate::text::{chars_of, decimal, find_char, parted, push_decimal, same_text};
use vstd::prelude::*;
use vstd::string::*;

verus! {

// ---------------------------------------------------------------------------
// Patterns
// ---------------------------------------------------------------------------

/// `prefix`, then `mid`, then `suffix`.
pub open spec fn framed(prefix: Seq<char>, mid: Seq<char>, suffix: Seq<char>) -> Seq<char> {
    prefix + mid + suffix
}

/// Whether `value` is `prefix` and `suffix` with any text between them.
pub open spec fn fits_between(prefix: Seq<char>, suffix: Seq<char>, value: Seq<char>) -> bool {
    exists|mid: Seq<char>| value == #[trigger] framed(prefix, mid, suffix)
}

/// Whether `value` fits `pattern`. A pattern without `*` fits only itself; the first `*` of a
/// pattern stands for any text, and what follows it stands for itself.
pub open spec fn glob_matches(pattern: Seq<char>, value: Seq<char>) -> bool {
    match parted(pattern, '*') {
        None => pattern == value,
        Some((prefix, suffix)) => fits_between(prefix, suffix, value),
    }
}

/// Whether `value` fits one of the patterns.
pub open spec fn allowed_by(patterns: Seq<Seq<char>>, value: Seq<char>) -> bool {
    exists|i: int| 0 <= i < patterns.len() && glob_matches(#[trigger] patterns[i], value)
}

/// Whether `value` fits `pattern`, in which the first `*` stands for any text.
pub fn glob_match(pattern: &str, value: &str) -> (r: bool)
    ensures
        r == glob_matches(pattern@, value@),
{
    let p = chars_of(pattern);
    let v = chars_of(value);
    let p_len: usize = p.len();
    let v_len: usize = v.len();
    let star = find_char(&p, '*', 0);
    assert(p@.skip(0) == pattern@);
    if star == p.len() {
        return same_text(pattern, value);
    }
    let ghost prefix = pattern@.take(star as int);
    let ghost suffix = pattern@.skip(star + 1);
    assert(parted(pattern@, '*') == Some((prefix, suffix)));
    let tail: usize = p_len - star - 1;
    if v.len() < star || v.len() - star < tail {
        assert forall|mid: Seq<char>| value@ != #[trigger] framed(prefix, mid, suffix) by {
            assert(framed(prefix, mid, suffix).len() >= star + tail);
        }
        return false;
    }
    let mut i: usize = 0;
    while i < star
        invariant
            i <= star < p@.len(),
            star <= v@.len(),
            p@ == pattern@,
            v@ == value@,
            prefix == pattern@.take(star as int),
            suffix == pattern@.skip(star + 1),
            parted(pattern@, '*') == Some((prefix, suffix)),
            forall|j: int| 0 <= j < i ==> p@[j] == v@[j],
        decreases star - i,
    {
        if p[i] != v[i] {
            assert forall|mid: Seq<char>| value@ != #[trigger] framed(prefix, mid, suffix) by {
                assert(framed(prefix, mid, suffix)[i as int] == pattern@[i as int]);
            }
            return false;
        }
        i = i + 1;
    }
    let from: usize = v_len - tail;
    let mut k: usize = 0;
    while k < tail
        invariant
            k <= tail,
            p_len == p@.len(),
            v_len == v@.len(),
            star < p_len,
            tail == p_len - star - 1,
            from + tail == v_len,
            star <= from,
            p@ == pattern@,
            v@ == value@,
            prefix == pattern@.take(star as int),
            suffix == pattern@.skip(star + 1),
            parted(pattern@, '*') == Some((prefix, suffix)),
            forall|j: int| 0 <= j < k ==> #[trigger] suffix[j] == v@[from + j],
        decreases tail - k,
    {
        if p[star + 1 + k] != v[from + k] {
            assert forall|mid: Seq<char>| value@ != #[trigger] framed(prefix, mid, suffix) by {
                let whole = framed(prefix, mid, suffix);
                if whole == value@ {
                    assert(whole[from + k] == suffix[k as int]);
                }
            }
            return false;
        }
        k = k + 1;
    }
    let ghost mid = value@.subrange(star as int, from as int);
    assert forall|j: int| 0 <= j < value@.len() implies value@[j] == framed(
        prefix,
        mid,
        suffix,
    )[j] by {
        if j >= from {
            assert(suffix[j - from] == v@[j]);
        }
    }
    assert(value@ =~= framed(prefix, mid, suffix));
    assert(fits_between(prefix, suffix, value@));
    true
}

/// Whether a subdomain fits one of the patterns.
pub fn subdomain_matches(patterns: &[String], subdomain: &str) -> (r: bool)
    ensures
        r == allowed_by(patterns.deep_view(), subdomain@),
{
    let mut i: usize = 0;
    while i < patterns.len()
        invariant
            i <= patterns@.len(),
            forall|j: int|
                0 <= j < i ==> !glob_matches(#[trigger] patterns.deep_view()[j], subdomain@),
        decreases patterns@.len() - i,
    {
        if glob_match(&patterns[i], subdomain) {
            assert(glob_matches(patterns.deep_view()[i as int], subdomain@));
            return true;
        }
        i = i + 1;
    }
    false
}

/// A pattern without `*` fits exactly itself.
pub proof fn law_plain_pattern(pattern: Seq<char>, value: Seq<char>)
    requires
        !pattern.contains('*'),
    ensures
        glob_matches(pattern, value) <==> value == pattern,
{
    crate::text::lemma_first_pos(pattern, '*');
}

/// A pattern with one `*` fits what begins with the text before it, ends with the text behind it,
/// and is long enough for the two not to overlap.
pub proof fn law_wildcard_pattern(prefix: Seq<char>, suffix: Seq<char>, value: Seq<char>)
    requires
        !prefix.contains('*'),
    ensures
        glob_matches(prefix.push('*') + suffix, value) <==> prefix.is_prefix_of(value)
            && suffix.is_suffix_of(value) && value.len() >= prefix.len() + suffix.len(),
{
    let pattern = prefix.push('*') + suffix;
    assert forall|j: int| 0 <= j < prefix.len() implies pattern[j] != '*' by {
        assert(prefix.contains(prefix[j]));
    }
    crate::text::lemma_first_pos_is(pattern, '*', prefix.len() as int);
    assert(pattern.take(prefix.len() as int) =~= prefix);
    assert(pattern.skip(prefix.len() as int + 1) =~= suffix);
    assert(parted(pattern, '*') == Some((prefix, suffix)));
    if prefix.is_prefix_of(value) && suffix.is_suffix_of(value) && value.len() >= prefix.len()
        + suffix.len() {
        let mid = value.subrange(prefix.len() as int, value.len() - suffix.len());
        assert(value =~= framed(prefix, mid, suffix));
        assert(fits_between(prefix, suffix, value));
    }
    if glob_matches(pattern, value) {
        assert(fits_between(prefix, suffix, value));
        let mid = choose|mid: Seq<char>| value == #[trigger] framed(prefix, mid, suffix);
        assert(value.subrange(0, prefix.len() as int) =~= prefix);
        assert(value.subrange(value.len() - suffix.len(), value.len() as int) =~= suffix);
    }
}

/// The pattern `*` fits anything.
pub proof fn law_star_pattern(value: Seq<char>)
    ensures
        glob_matches("*"@, value),
{
    reveal_strlit("*");
    let none = Seq::<char>::empty();
    assert("*"@ =~= none.push('*') + none);
    law_wildcard_pattern(none, none, value);
    assert(none =~= value.subrange(0, 0));
    assert(none =~= value.subrange(value.len() as int, value.len() as int));
}

// ---------------------------------------------------------------------------
// Auth provider
// ---------------------------------------------------------------------------

/// Where tokens are verified, and the secret that the relay shows there.
pub struct AuthProviderConfig {
    pub url: String,
    pub secret: String,
}

/// Why a token was not accepted.
#[derive(Debug)]
pub enum AuthError {
    InvalidToken(String),
    ProviderUnavailable(String),
}

/// The content of an [`AuthError`].
pub enum AuthErrorView {
    InvalidToken(Seq<char>),
    ProviderUnavailable(Seq<char>),
}

impl View for AuthError {
    type V = AuthErrorView;

    open spec fn view(&self) -> AuthErrorView {
        match self {
            AuthError::InvalidToken(m) => AuthErrorView::InvalidToken(m@),
            AuthError::ProviderUnavailable(m) => AuthErrorView::ProviderUnavailable(m@),
        }
    }
}

/// The content of a verdict on a token: the patterns that it may use, or why it was not accepted.
pub open spec fn verdict_view(r: Result<Vec<String>, AuthError>) -> Result<
    Seq<Seq<char>>,
    AuthErrorView,
> {
    match r {
        Ok(subdomains) => Ok(subdomains.deep_view()),
        Err(e) => Err(e@),
    }
}

/// The call that asks a provider about a token: a POST of `token` and `subdomain` as JSON, with
/// the header `X-Relay-Secret`.
pub struct VerifyCall {
    pub url: String,
    pub secret: String,
    pub token: String,
    pub subdomain: String,
}

/// The content of a [`VerifyCall`].
pub struct CallView {
    pub url: Seq<char>,
    pub secret: Seq<char>,
    pub token: Seq<char>,
    pub subdomain: Seq<char>,
}

impl View for VerifyCall {
    type V = CallView;

    open spec fn view(&self) -> CallView {
        CallView {
            url: self.url@,
            secret: self.secret@,
            token: self.token@,
            subdomain: self.subdomain@,
        }
    }
}

/// The call that asks a provider about a token and the subdomain wished for.
pub open spec fn verification(
    url: Seq<char>,
    secret: Seq<char>,
    token: Seq<char>,
    requested: Option<Seq<char>>,
) -> CallView {
    CallView {
        url: url + "/api/verify"@,
        secret,
        token,
        subdomain: match requested {
            Some(s) => s,
            None => Seq::empty(),
        },
    }
}

/// The call that asks the provider about a token and the subdomain wished for, which is empty
/// where the client named none.
pub fn verify_call(auth: &AuthProviderConfig, token: &str, requested: Option<&str>) -> (call:
    VerifyCall)
    ensures
        call.url@ == auth.url@ + "/api/verify"@,
        call.secret@ == auth.secret@,
        call.token@ == token@,
        call.subdomain@ == (match requested {
            Some(s) => s@,
            None => Seq::<char>::empty(),
        }),
        call@ == verification(
            auth.url@,
            auth.secret@,
            token@,
            match requested {
                Some(s) => Some(s@),
                None => None,
            },
        ),
{
    let mut url: String = auth.url.clone();
    url.append("/api/verify");
    let subdomain: String = match requested {
        Some(s) => s.to_string(),
        None => String::new(),
    };
    VerifyCall { url, secret: auth.secret.clone(), token: token.to_string(), subdomain }
}

/// What the status of a provider's reply says about its body.
#[derive(PartialEq, Eq, Structural, Clone, Copy)]
pub enum ReplyKind {
    /// The body lists the subdomains of the token.
    Accepted,
    /// The body may say why the token is refused.
    Denied,
    /// The body is not read.
    Unexpected,
}

/// What the status of a provider's reply says about its body.
pub open spec fn kind_of(status: u16) -> ReplyKind {
    match status {
        200 => ReplyKind::Accepted,
        401 | 403 => ReplyKind::Denied,
        _ => ReplyKind::Unexpected,
    }
}

/// What the status of a provider's reply says about its body.
pub fn reply_kind(status: u16) -> (kind: ReplyKind)
    ensures
        kind == (if status == 200 {
            ReplyKind::Accepted
        } else if status == 401 || status == 403 {
            ReplyKind::Denied
        } else {
            ReplyKind::Unexpected
        }),
        kind == kind_of(status),
{
    if status == 200 {
        ReplyKind::Accepted
    } else if status == 401 || status == 403 {
        ReplyKind::Denied
    } else {
        ReplyKind::Unexpected
    }
}

/// What came back from a provider.
pub enum VerifyReply {
    /// No reply; the text says why.
    NoReply(String),
    /// Status 200: the listed subdomains, or why the body could not be read.
    Accepted(Result<Vec<String>, String>),
    /// Status 401 or 403: the reason in the body, if one could be read.
    Denied(Option<String>),
    /// Any other status.
    Unexpected(u16),
}

/// What a provider's reply means.
pub open spec fn verdict(reply: VerifyReply) -> Result<Seq<Seq<char>>, AuthErrorView> {
    match reply {
        VerifyReply::NoReply(e) => Err(AuthErrorView::ProviderUnavailable(e@)),
        VerifyReply::Accepted(Ok(subdomains)) => Ok(subdomains.deep_view()),
        VerifyReply::Accepted(Err(e)) => Err(
            AuthErrorView::ProviderUnavailable("bad response: "@ + e@),
        ),
        VerifyReply::Denied(Some(reason)) => Err(AuthErrorView::InvalidToken(reason@)),
        VerifyReply::Denied(None) => Err(AuthErrorView::InvalidToken("invalid token"@)),
        VerifyReply::Unexpected(status) => Err(
            AuthErrorView::ProviderUnavailable("unexpected status "@ + decimal(status as nat)),
        ),
    }
}

/// The verdict of a provider on a token.
pub fn verify_token(reply: VerifyReply) -> (r: Result<Vec<String>, AuthError>)
    ensures
        verdict_view(r) == verdict(reply),
{
    match reply {
        VerifyReply::NoReply(e) => Err(AuthError::ProviderUnavailable(e)),
        VerifyReply::Accepted(Ok(subdomains)) => Ok(subdomains),
        VerifyReply::Accepted(Err(e)) => {
            let mut m: String = "bad response: ".to_string();
            m.append(&e);
            Err(AuthError::ProviderUnavailable(m))
        },
        VerifyReply::Denied(Some(reason)) => Err(AuthError::InvalidToken(reason)),
        VerifyReply::Denied(None) => Err(AuthError::InvalidToken("invalid token".to_string())),
        VerifyReply::Unexpected(status) => {
            let mut m: String = "unexpected status ".to_string();
            push_decimal(&mut m, status as u128);
            Err(AuthError::ProviderUnavailable(m))
        },
    }
}

// ---------------------------------------------------------------------------
// Laws of the auth provider
// ---------------------------------------------------------------------------

/// A list of patterns allows what any one of them fits, wherever in the list it stands, and
/// nothing else.
pub proof fn law_any_pattern_is_enough(
    a: Seq<Seq<char>>,
    pattern: Seq<char>,
    b: Seq<Seq<char>>,
    value: Seq<char>,
)
    ensures
        allowed_by(a + seq![pattern] + b, value) <==> allowed_by(a, value) || glob_matches(
            pattern,
            value,
        ) || allowed_by(b, value),
        !allowed_by(Seq::empty(), value),
{
    let all = a + seq![pattern] + b;
    let n = a.len() as int;
    if allowed_by(a, value) {
        let i = choose|i: int| 0 <= i < a.len() && glob_matches(#[trigger] a[i], value);
        assert(all[i] == a[i]);
    }
    if glob_matches(pattern, value) {
        assert(all[n] == pattern);
    }
    if allowed_by(b, value) {
        let i = choose|i: int| 0 <= i < b.len() && glob_matches(#[trigger] b[i], value);
        assert(all[n + 1 + i] == b[i]);
    }
    if allowed_by(all, value) {
        let i = choose|i: int| 0 <= i < all.len() && glob_matches(#[trigger] all[i], value);
        if i < n {
            assert(a[i] == all[i]);
        } else if i > n {
            assert(b[i - n - 1] == all[i]);
        }
    }
}

/// The provider is asked below its URL, with its secret, about the token and the wish as the
/// client gave them; a client without a wish is asked about with an empty one.
pub proof fn law_provider_is_asked_as_given(
    url: Seq<char>,
    secret: Seq<char>,
    token: Seq<char>,
    wish: Seq<char>,
)
    ensures
        verification(url, secret, token, Some(wish)).secret == secret,
        verification(url, secret, token, Some(wish)).token == token,
        verification(url, secret, token, Some(wish)).subdomain == wish,
        verification(url, secret, token, None).subdomain.len() == 0,
        verification(url, secret, token, None).token == token,
        verification(url, secret, token, None).secret == secret,
        url.is_prefix_of(verification(url, secret, token, Some(wish)).url),
        verification(url, secret, token, Some(wish)).url.skip(url.len() as int) == "/api/verify"@,
        verification(url, secret, token, None).url == verification(
            url,
            secret,
            token,
            Some(wish),
        ).url,
{
    let whole = verification(url, secret, token, Some(wish)).url;
    assert(url =~= whole.subrange(0, url.len() as int));
    assert(whole.skip(url.len() as int) =~= "/api/verify"@);
}

/// The content of a call is its texts, as they stand.
pub proof fn law_call_content(call: VerifyCall)
    ensures
        call@.url == call.url@,
        call@.secret == call.secret@,
        call@.token == call.token@,
        call@.subdomain == call.subdomain@,
{
}

/// Only status 200 accepts a token, and only 401 and 403 refuse it.
pub proof fn law_reply_statuses(status: u16)
    ensures
        kind_of(status) is Accepted <==> status == 200,
        kind_of(status) is Denied <==> status == 401 || status == 403,
{
}

/// An accepted token may use just what the provider lists, in its order; a refused one is invalid
/// for the provider's reason; and everything else is the provider's failure, told as it came.
pub proof fn law_verdicts_are_the_providers(reply: VerifyReply)
    ensures
        verdict(reply) is Ok <==> reply matches VerifyReply::Accepted(Ok(_)),
        reply matches VerifyReply::Accepted(Ok(list)) ==> verdict(reply)->Ok_0.len() == list@.len()
            && (forall|i: int| 0 <= i < list@.len() ==> verdict(reply)->Ok_0[i] == (
        #[trigger] list@[i])@),
        reply matches VerifyReply::Denied(why) ==> verdict(reply)->Err_0 is InvalidToken && verdict(
            reply,
        )->Err_0->InvalidToken_0 == (match why {
            Some(reason) => reason@,
            None => "invalid token"@,
        }),
        reply matches VerifyReply::NoReply(e) ==> verdict(reply)->Err_0 is ProviderUnavailable
            && verdict(reply)->Err_0->ProviderUnavailable_0 == e@,
        reply matches VerifyReply::Accepted(Err(e)) ==> verdict(reply)->Err_0 is ProviderUnavailable
            && verdict(reply)->Err_0->ProviderUnavailable_0 == "bad response: "@ + e@,
        reply matches VerifyReply::Unexpected(status) ==> verdict(
            reply,
        )->Err_0 is ProviderUnavailable && verdict(reply)->Err_0->ProviderUnavailable_0
            == "unexpected status "@ + decimal(status as nat),
{
}

/// The content of a verdict is the list or the reason, as it stands.
pub proof fn law_verdict_content(r: Result<Vec<String>, AuthError>)
    ensures
        r is Ok <==> verdict_view(r) is Ok,
        r matches Ok(list) ==> verdict_view(r)->Ok_0 == list.deep_view(),
        r matches Err(AuthError::InvalidToken(m)) ==> verdict_view(r)
            == Err::<Seq<Seq<char>>, _>(AuthErrorView::InvalidToken(m@)),
        r matches Err(AuthError::ProviderUnavailable(m)) ==> verdict_view(r)
            == Err::<Seq<Seq<char>>, _>(AuthErrorView::ProviderUnavailable(m@)),
{
}

} // verus!
