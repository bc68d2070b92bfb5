//! The frames that relay and client exchange, and the headers that stay on one connection.

use crate::string_map::StringMap;
use crate::text::{lower, same_text, to_lower};
use vstd::prelude::*;

verus! {

/// RFC 7230 hop-by-hop headers plus `content-length`, whatever the case they are written in.
pub open spec fn hop_by_hop(name: Seq<char>) -> bool {
    let n = lower(name);
    ||| n == "connection"@
    ||| n == "content-length"@
    ||| n == "keep-alive"@
    ||| n == "proxy-authenticate"@
    ||| n == "proxy-authorization"@
    ||| n == "te"@
    ||| n == "trailer"@
    ||| n == "transfer-encoding"@
    ||| n == "upgrade"@
}

/// RFC 7230 hop-by-hop headers plus `content-length`.
///
/// These must not be forwarded across a proxy: they describe the connection between the current
/// pair of peers, not the end-to-end message. A stale `content-length` or a forwarded
/// `transfer-encoding` confuses the body framing on the other side.
pub fn is_hop_by_hop(name: &str) -> (r: bool)
    ensures
        r == hop_by_hop(name@),
{
    let n = to_lower(name);
    same_text(&n, "connection") || same_text(&n, "content-length") || same_text(&n, "keep-alive")
        || same_text(&n, "proxy-authenticate") || same_text(&n, "proxy-authorization")
        || same_text(&n, "te") || same_text(&n, "trailer") || same_text(&n, "transfer-encoding")
        || same_text(&n, "upgrade")
}

/// Letter case plays no part in which headers are hop-by-hop.
pub proof fn law_hop_by_hop_ignores_case(a: Seq<char>, b: Seq<char>)
    requires
        lower(a) == lower(b),
    ensures
        hop_by_hop(a) == hop_by_hop(b),
{
}

/// Inbound HTTP request to forward upstream. The body is fully buffered: request bodies are small
/// JSON-RPC envelopes, and only responses are streamed (see [`TunnelMessage::ResponseChunk`]).
pub struct TunnelRequest {
    pub id: String,
    pub method: String,
    pub path: String,
    pub headers: StringMap<String>,
    /// Base64.
    pub body: Option<String>,
}

/// A whole response in one frame.
pub struct TunnelResponse {
    pub id: String,
    pub status: u16,
    pub headers: StringMap<String>,
    /// Base64.
    pub body: Option<String>,
}

/// All frames carried over the WebSocket between relay and client.
///
/// Per request id, the lifecycle is:
///   relay to client: `Request`
///   client to relay: `ResponseHead`, then 0+ `ResponseChunk` (last one `last: true`), or a single
///     `ResponseError` if the upstream errored before producing headers.
///   relay to client (any time before the terminator): `Cancel` to abort the in-flight upstream
///     request (e.g. the public client disconnected).
///
/// Frames not matching the expected direction are ignored.
pub enum TunnelMessage {
    /// Relay to client. Forward this request to the local upstream.
    Request(TunnelRequest),
    /// Client to relay. Upstream returned headers; body chunks follow.
    ResponseHead { id: String, status: u16, headers: StringMap<String> },
    /// Client to relay. One chunk of the response body. `data` is base64. `last: true` signals
    /// end of stream; after this the id is consumed and any further frames for it are ignored.
    ResponseChunk { id: String, data: String, last: bool },
    /// Client to relay. Upstream errored before producing headers. The relay synthesizes a 502
    /// response.
    ResponseError { id: String, message: String },
    /// Relay to client. Cancel an in-flight request. The client aborts the upstream connection.
    /// No more frames are sent for this id, not even a terminator.
    Cancel { id: String },
}

/// What a client sends first: its token and the subdomain that it would like.
pub struct RegisterRequest {
    pub token: String,
    pub subdomain: Option<String>,
}

/// What the relay answers when the tunnel stands.
pub struct RegisterAck {
    pub subdomain: String,
    pub url: String,
}

/// Sent by the relay when the client has to choose among the patterns that its token allows.
pub struct SubdomainOffer {
    pub subdomains: Vec<String>,
}

/// Sent by the client to pick a subdomain from the offered list.
pub struct SubdomainPick {
    pub subdomain: String,
}

/// The content of a [`TunnelRequest`].
pub struct RequestView {
    pub id: Seq<char>,
    pub method: Seq<char>,
    pub path: Seq<char>,
    pub headers: Map<Seq<char>, Seq<char>>,
    pub body: Option<Seq<char>>,
}

/// The content of a [`TunnelMessage`].
pub enum MessageView {
    Request(RequestView),
    ResponseHead { id: Seq<char>, status: u16, headers: Map<Seq<char>, Seq<char>> },
    ResponseChunk { id: Seq<char>, data: Seq<char>, last: bool },
    ResponseError { id: Seq<char>, message: Seq<char> },
    Cancel { id: Seq<char> },
}

/// The content of a [`RegisterRequest`].
pub struct RegisterView {
    pub token: Seq<char>,
    pub subdomain: Option<Seq<char>>,
}

/// The content of a [`RegisterAck`].
pub struct AckView {
    pub subdomain: Seq<char>,
    pub url: Seq<char>,
}

/// The content of a text that may be missing.
pub open spec fn opt_text(t: Option<String>) -> Option<Seq<char>> {
    match t {
        Some(s) => Some(s@),
        None => None,
    }
}

impl View for TunnelRequest {
    type V = RequestView;

    open spec fn view(&self) -> RequestView {
        RequestView {
            id: self.id@,
            method: self.method@,
            path: self.path@,
            headers: self.headers@,
            body: opt_text(self.body),
        }
    }
}

impl Clone for TunnelRequest {
    fn clone(&self) -> (copy: Self)
        ensures
            copy@ == self@,
    {
        TunnelRequest {
            id: self.id.clone(),
            method: self.method.clone(),
            path: self.path.clone(),
            headers: self.headers.clone(),
            body: self.body.clone(),
        }
    }
}

impl View for TunnelMessage {
    type V = MessageView;

    open spec fn view(&self) -> MessageView {
        match self {
            TunnelMessage::Request(req) => MessageView::Request(req@),
            TunnelMessage::ResponseHead { id, status, headers } => MessageView::ResponseHead {
                id: id@,
                status: *status,
                headers: headers@,
            },
            TunnelMessage::ResponseChunk { id, data, last } => MessageView::ResponseChunk {
                id: id@,
                data: data@,
                last: *last,
            },
            TunnelMessage::ResponseError { id, message } => MessageView::ResponseError {
                id: id@,
                message: message@,
            },
            TunnelMessage::Cancel { id } => MessageView::Cancel { id: id@ },
        }
    }
}

impl DeepView for TunnelMessage {
    type V = MessageView;

    open spec fn deep_view(&self) -> MessageView {
        self@
    }
}

impl View for RegisterRequest {
    type V = RegisterView;

    open spec fn view(&self) -> RegisterView {
        RegisterView { token: self.token@, subdomain: opt_text(self.subdomain) }
    }
}

impl View for RegisterAck {
    type V = AckView;

    open spec fn view(&self) -> AckView {
        AckView { subdomain: self.subdomain@, url: self.url@ }
    }
}

// ---------------------------------------------------------------------------
// Laws
// ---------------------------------------------------------------------------

/// Nine headers stay on one connection, in whatever case they are written, and no other does.
pub proof fn law_nine_headers_are_hop_by_hop(name: Seq<char>)
    ensures
        ({
            let names = seq![
                "te"@,
                "trailer"@,
                "upgrade"@,
                "connection"@,
                "keep-alive"@,
                "content-length"@,
                "transfer-encoding"@,
                "proxy-authenticate"@,
                "proxy-authorization"@,
            ];
            hop_by_hop(name) <==> names.contains(lower(name))
        }),
{
    let names = seq![
        "te"@,
        "trailer"@,
        "upgrade"@,
        "connection"@,
        "keep-alive"@,
        "content-length"@,
        "transfer-encoding"@,
        "proxy-authenticate"@,
        "proxy-authorization"@,
    ];
    if hop_by_hop(name) {
        assert(names[0] == "te"@ && names[1] == "trailer"@ && names[2] == "upgrade"@);
        assert(names[3] == "connection"@ && names[4] == "keep-alive"@);
        assert(names[5] == "content-length"@ && names[6] == "transfer-encoding"@);
        assert(names[7] == "proxy-authenticate"@ && names[8] == "proxy-authorization"@);
    }
}

/// The content of a request is each of its texts, its headers and its body, as they stand.
pub proof fn law_request_content(req: TunnelRequest)
    ensures
        req@.id == req.id@,
        req@.method == req.method@,
        req@.path == req.path@,
        req@.headers == req.headers@,
        req.body is None <==> req@.body is None,
        req.body matches Some(text) ==> req@.body == Some(text@),
{
}

/// The content of a frame is its kind and everything that it carries, as it stands.
pub proof fn law_message_content(m: TunnelMessage)
    ensures
        m matches TunnelMessage::Request(req) ==> m@ is Request && m@->Request_0 == req@,
        m matches TunnelMessage::ResponseHead { id, status, headers } ==> m@ is ResponseHead
            && m@->ResponseHead_id == id@ && m@->status == status && m@->headers == headers@,
        m matches TunnelMessage::ResponseChunk { id, data, last } ==> m@ is ResponseChunk
            && m@->ResponseChunk_id == id@ && m@->data == data@ && m@->last == last,
        m matches TunnelMessage::ResponseError { id, message } ==> m@ is ResponseError
            && m@->ResponseError_id == id@ && m@->message == message@,
        m matches TunnelMessage::Cancel { id } ==> m@ is Cancel && m@->Cancel_id == id@,
        m.deep_view() == m@,
{
}

/// The content of a registration and of its answer is their texts, as they stand.
pub proof fn law_registration_content(reg: RegisterRequest, ack: RegisterAck)
    ensures
        reg@.token == reg.token@,
        reg.subdomain is None <==> reg@.subdomain is None,
        reg.subdomain matches Some(wish) ==> reg@.subdomain == Some(wish@),
        ack@.subdomain == ack.subdomain@,
        ack@.url == ack.url@,
{
}

} // verus!
