//! The calls into other crates and into parts of std, each with a contract that says what it
//! returns.

use crate::text::lower;
use base64::engine::general_purpose::STANDARD;
use base64::Engine;
use sha2::{Digest, Sha256};
use vstd::prelude::*;

verus! {

// ---------------------------------------------------------------------------
// Base64
// ---------------------------------------------------------------------------

/// The standard base64 form, with padding, of a run of bytes.
pub uninterp spec fn base64_text(bytes: Seq<u8>) -> Seq<char>;

/// The bytes that a text holds in standard base64, where it is well formed with its padding.
pub uninterp spec fn base64_bytes(text: Seq<char>) -> Option<Seq<u8>>;

/// `text` is the base64 form of `bytes`, and gives them back.
pub open spec fn carries(text: Seq<char>, bytes: Seq<u8>) -> bool {
    &&& text == base64_text(bytes)
    &&& base64_bytes(text) == Some(bytes)
    &&& text.len() == 4 * ((bytes.len() + 2) / 3)
}

/// `base64::Engine::encode` of the engine `STANDARD`. Decoding the result gives the bytes back,
/// and the result has four characters for every three bytes begun. The call panics where the
/// result would be larger than an allocation can be, so longer inputs are left out.
#[verifier::external_body]
pub(crate) fn encode_base64(bytes: &[u8]) -> (text: String)
    requires
        4 * ((bytes@.len() + 2) / 3) <= isize::MAX,
    ensures
        text@ == base64_text(bytes@),
        base64_bytes(text@) == Some(bytes@),
        text@.len() == 4 * ((bytes@.len() + 2) / 3),
{
    STANDARD.encode(bytes)
}

/// `base64::Engine::decode` of the engine `STANDARD`, with its error dropped.
#[verifier::external_body]
pub(crate) fn decode_base64(text: &str) -> (r: Option<Vec<u8>>)
    ensures
        match r {
            Some(bytes) => base64_bytes(text@) == Some(bytes@),
            None => base64_bytes(text@) is None,
        },
{
    STANDARD.decode(text).ok()
}

// ---------------------------------------------------------------------------
// Digests and identifiers
// ---------------------------------------------------------------------------

/// The SHA-256 digest of a run of bytes.
pub uninterp spec fn sha256_of(bytes: Seq<u8>) -> Seq<u8>;

/// `sha2::Sha256` over one run of bytes: its digest, which has 32 bytes.
#[verifier::external_body]
pub(crate) fn sha256(bytes: &[u8]) -> (digest: Vec<u8>)
    ensures
        digest@ == sha256_of(bytes@),
        digest@.len() == 32,
{
    let mut hasher = Sha256::new();
    hasher.update(bytes);
    hasher.finalize().to_vec()
}

/// Whether `c` is a lower-case hexadecimal digit.
pub open spec fn hex_char(c: char) -> bool {
    ('0' <= c && c <= '9') || ('a' <= c && c <= 'f')
}

/// The form of a random UUID: 36 characters, hyphens at four places, lower-case hexadecimal
/// elsewhere, the version digit `4` and a variant digit from `8` to `b`.
pub open spec fn uuid_form(s: Seq<char>) -> bool {
    &&& s.len() == 36
    &&& forall|i: int|
        0 <= i < 36 ==> if i == 8 || i == 13 || i == 18 || i == 23 {
            #[trigger] s[i] == '-'
        } else {
            hex_char(s[i])
        }
    &&& s[14] == '4'
    &&& (s[19] == '8' || s[19] == '9' || s[19] == 'a' || s[19] == 'b')
}

/// `uuid::Uuid::new_v4` and its text form. Which one comes is left to chance.
#[verifier::external_body]
pub(crate) fn random_uuid() -> (id: String)
    ensures
        uuid_form(id@),
{
    uuid::Uuid::new_v4().to_string()
}

// ---------------------------------------------------------------------------
// Texts
// ---------------------------------------------------------------------------

/// `String::push`: the character is appended to the end of the string.
pub assume_specification[ String::push ](s: &mut String, c: char)
    ensures
        final(s)@ == old(s)@.push(c),
;

/// A text as its `Debug` form shows it: in double quotes, with escapes.
pub uninterp spec fn debug_form(text: Seq<char>) -> Seq<char>;

/// The `Debug` form of `str`, as `format!` writes it.
#[verifier::external_body]
pub(crate) fn debug_text(text: &str) -> (r: String)
    ensures
        r@ == debug_form(text@),
{
    format!("{:?}", text)
}

// ---------------------------------------------------------------------------
// HTTP
// ---------------------------------------------------------------------------

/// The characters of an HTTP token.
pub open spec fn token_char(c: char) -> bool {
    ||| ('a' <= c && c <= 'z')
    ||| ('A' <= c && c <= 'Z')
    ||| ('0' <= c && c <= '9')
    ||| "!#$%&'*+-.^_`|~"@.contains(c)
}

/// Whether `s` is an HTTP token: at least one character, and only those of a token.
pub open spec fn is_token(s: Seq<char>) -> bool {
    s.len() > 0 && forall|i: int| 0 <= i < s.len() ==> token_char(#[trigger] s[i])
}

/// Whether `s` can be the value of an HTTP header: no ASCII control character but the
/// tab.
pub open spec fn is_header_text(s: Seq<char>) -> bool {
    forall|i: int|
        0 <= i < s.len() ==> (#[trigger] s[i] as u32) == 9 || ((s[i] as u32) >= 32 && (s[i] as u32)
            != 127)
}

/// `http::Method::from_bytes`: the method of that name, given back as its name, where the text is
/// an HTTP token.
#[verifier::external_body]
pub(crate) fn http_method(name: &str) -> (r: Option<String>)
    ensures
        match r {
            Some(method) => is_token(name@) && method@ == name@,
            None => !is_token(name@),
        },
{
    axum::http::Method::from_bytes(name.as_bytes()).ok().map(|m| m.as_str().to_string())
}

/// `http::HeaderName::from_bytes`: the header name in lower case, where the text is an HTTP token
/// of at most 65535 characters.
#[verifier::external_body]
pub(crate) fn header_name(name: &str) -> (r: Option<String>)
    ensures
        match r {
            Some(n) => is_token(name@) && name@.len() <= 65535 && n@ == lower(name@),
            None => !(is_token(name@) && name@.len() <= 65535),
        },
{
    axum::http::HeaderName::from_bytes(name.as_bytes()).ok().map(|n| n.as_str().to_string())
}

/// `http::HeaderValue::from_str`: whether the text can be a header value.
#[verifier::external_body]
pub(crate) fn header_value(value: &str) -> (r: bool)
    ensures
        r == is_header_text(value@),
{
    axum::http::HeaderValue::from_str(value).is_ok()
}

/// `http::StatusCode::from_u16`: the status, where it has three digits.
#[verifier::external_body]
pub(crate) fn status_code(status: u16) -> (r: Option<u16>)
    ensures
        r == (if 100 <= status && status <= 999 {
            Some(status)
        } else {
            None
        }),
{
    axum::http::StatusCode::from_u16(status).ok().map(|s| s.as_u16())
}

} // verus!
