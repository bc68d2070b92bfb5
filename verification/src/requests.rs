//! Public requests on their way through the relay, and the frames that answer them.

use crate::forward::{
    complete, delivered, emits, failed, follows, frame_bytes, is_body_chunk, law_body_arrives,
    law_head_is_passed_on, opened, sent, streamed, upstreamed, Stage, Step, UpstreamEvent,
    UpstreamView,
};
use crate::headers::{
    ascii_text, carried, carry_headers, for_public, for_upstream, header_list, law_carried_headers,
    public_headers, visible, visible_text, RawHeader,
};
use crate::outside::{
    base64_bytes, base64_text, decode_base64, encode_base64, is_token, random_uuid, status_code,
    uuid_form,
};
use crate::protocol::{opt_text, MessageView, RequestView, TunnelMessage, TunnelRequest};
use crate::relay::TunnelRegistry;
use crate::string_map::StringMap;
use crate::tables::{
    get_in_flight, in_flight, insert_in_flight, new_in_flight, remove_in_flight, InFlight,
};
use crate::text::{
    chars_of, decimal, find_char, first_pos, lemma_first_pos, lemma_first_pos_is, lower,
    push_decimal, same_text, text_between, to_lower,
};
use dashmap::DashMap;
use vstd::prelude::*;
use vstd::string::*;

verus! {

/// Seconds to wait for the response head of a client. The body may then take any time.
pub const HEAD_TIMEOUT_SECS: u64 = 30;

/// Chunks that the body of a public response buffers before the tunnel is held back.
pub const BODY_CHANNEL_DEPTH: usize = 32;

/// Frames that wait for a client's socket before the tunnel counts as overloaded.
pub const TUNNEL_QUEUE_DEPTH: usize = 64;

// ---------------------------------------------------------------------------
// Routing
// ---------------------------------------------------------------------------

/// The first header named `host`, in any case, where its value is text; empty otherwise.
pub open spec fn host_of(raw: Seq<(Seq<char>, Seq<u8>)>) -> Seq<char>
    decreases raw.len(),
{
    if raw.len() == 0 {
        Seq::empty()
    } else if lower(raw[0].0) == "host"@ {
        if visible(raw[0].1) {
            ascii_text(raw[0].1)
        } else {
            Seq::empty()
        }
    } else {
        host_of(raw.drop_first())
    }
}

/// What stands before the first dot of a host.
pub open spec fn host_label(host: Seq<char>) -> Seq<char> {
    host.take(first_pos(host, '.'))
}

fn host_header(headers: &Vec<RawHeader>) -> (host: String)
    ensures
        host@ == host_of(headers.deep_view()),
{
    let mut i: usize = 0;
    let ghost all = headers.deep_view();
    assert(all.skip(0) =~= all);
    while i < headers.len()
        invariant
            i <= headers@.len(),
            all == headers.deep_view(),
            host_of(all) == host_of(all.skip(i as int)),
        decreases headers@.len() - i,
    {
        assert(all.skip(i as int)[0] == (headers@[i as int].name@, headers@[i as int].value@));
        let name = to_lower(&headers[i].name);
        if same_text(&name, "host") {
            return match visible_text(&headers[i].value) {
                Some(host) => host,
                None => String::new(),
            };
        }
        assert(all.skip(i as int).drop_first() =~= all.skip(i + 1));
        i = i + 1;
    }
    String::new()
}

/// The subdomain that a request is for: the first label of its `host` header.
pub fn request_subdomain(headers: &Vec<RawHeader>) -> (subdomain: String)
    ensures
        subdomain@ == host_label(host_of(headers.deep_view())),
{
    let host = host_header(headers);
    let chars = chars_of(&host);
    let dot = find_char(&chars, '.', 0);
    assert(chars@.skip(0) =~= host@);
    let subdomain = text_between(&chars, 0, dot);
    assert(subdomain@ =~= host_label(host@));
    subdomain
}

/// An HTTP request of a public client.
pub struct PublicRequest {
    pub method: String,
    /// Path and query, where the request has them.
    pub path: Option<String>,
    pub headers: Vec<RawHeader>,
    pub body: Vec<u8>,
}

/// Whether the base64 form of the body is no larger than an allocation can be.
pub open spec fn encodable(req: PublicRequest) -> bool {
    4 * ((req.body@.len() + 2) / 3) <= isize::MAX
}

/// The body of the request: none where it is empty.
pub open spec fn request_body(req: PublicRequest) -> Option<Seq<u8>> {
    if req.body@.len() == 0 {
        None
    } else {
        Some(req.body@)
    }
}

/// The path that is forwarded: `/` where the request has none.
pub open spec fn request_path(path: Option<Seq<char>>) -> Seq<char> {
    match path {
        Some(p) => p,
        None => "/"@,
    }
}

/// The request as it goes through the tunnel under an id.
pub open spec fn tunnelled(req: PublicRequest, id: Seq<char>) -> RequestView {
    RequestView {
        id,
        method: req.method@,
        path: request_path(opt_text(req.path)),
        headers: carried(req.headers.deep_view()),
        body: if req.body@.len() == 0 {
            None
        } else {
            Some(base64_text(req.body@))
        },
    }
}

/// Whatever the base URL of the local server, it gets the request as the public client sent it:
/// the method, the path behind the base URL, every header that the tunnel carries but `host`, and
/// the body byte for byte.
pub open spec fn arrives_whole(req: PublicRequest, tunnelled: RequestView) -> bool {
    forall|base_url: Seq<char>| #[trigger]
        upstreamed(base_url, tunnelled) == (UpstreamView {
            method: if is_token(req.method@) {
                req.method@
            } else {
                "GET"@
            },
            url: base_url + request_path(opt_text(req.path)),
            headers: for_upstream(carried(req.headers.deep_view())),
            body: request_body(req),
        })
}

/// The path that is forwarded.
pub fn path_of(req: &PublicRequest) -> (path: String)
    ensures
        path@ == request_path(opt_text(req.path)),
{
    match &req.path {
        Some(p) => p.clone(),
        None => "/".to_string(),
    }
}

/// The request as it goes through the tunnel under an id. Its body, if it has one, is in base64,
/// and the local server gets the request whole.
pub fn tunnel_request(req: &PublicRequest, id: String) -> (out: TunnelRequest)
    requires
        encodable(*req),
    ensures
        out@ == tunnelled(*req, id@),
        arrives_whole(*req, out@),
{
    let body: Option<String> = if req.body.len() == 0 {
        None
    } else {
        Some(encode_base64(&req.body))
    };
    TunnelRequest {
        id,
        method: req.method.clone(),
        path: path_of(req),
        headers: carry_headers(&req.headers),
        body,
    }
}

/// An answer that the relay gives itself.
pub struct PublicReply {
    pub status: u16,
    pub message: String,
}

/// The content of a [`PublicReply`].
pub struct ReplyView {
    pub status: u16,
    pub message: Seq<char>,
}

impl View for PublicReply {
    type V = ReplyView;

    open spec fn view(&self) -> ReplyView {
        ReplyView { status: self.status, message: self.message@ }
    }
}

/// What becomes of a public request.
pub enum Admission {
    /// The relay answers at once. The subdomain is that of the log, `-` where there is none.
    Refuse { subdomain: String, reply: PublicReply },
    /// The request goes to this connection.
    Forward { subdomain: String, conn: u64, request: TunnelRequest },
}

/// The content of an [`Admission`].
pub enum AdmissionView {
    Refuse { subdomain: Seq<char>, reply: ReplyView },
    Forward { subdomain: Seq<char>, conn: u64, request: RequestView },
}

impl View for Admission {
    type V = AdmissionView;

    open spec fn view(&self) -> AdmissionView {
        match self {
            Admission::Refuse { subdomain, reply } => AdmissionView::Refuse {
                subdomain: subdomain@,
                reply: reply@,
            },
            Admission::Forward { subdomain, conn, request } => AdmissionView::Forward {
                subdomain: subdomain@,
                conn: *conn,
                request: request@,
            },
        }
    }
}

/// What becomes of a public request under an id: it goes to the connection that holds its
/// subdomain, and is refused where it names none or nobody holds it.
pub open spec fn admitted(
    tunnels: Map<Seq<char>, u64>,
    req: PublicRequest,
    id: Seq<char>,
) -> AdmissionView {
    let subdomain = host_label(host_of(req.headers.deep_view()));
    if subdomain.len() == 0 {
        AdmissionView::Refuse {
            subdomain: "-"@,
            reply: ReplyView { status: 400, message: "missing host header"@ },
        }
    } else if !tunnels.contains_key(subdomain) {
        AdmissionView::Refuse {
            subdomain,
            reply: ReplyView { status: 502, message: "tunnel not found"@ },
        }
    } else {
        AdmissionView::Forward {
            subdomain,
            conn: tunnels[subdomain],
            request: tunnelled(req, id),
        }
    }
}

/// What becomes of a public request under an id.
pub fn admit_as(registry: &TunnelRegistry, req: &PublicRequest, id: String) -> (a: Admission)
    requires
        encodable(*req),
    ensures
        a@ == admitted(registry@, *req, id@),
        a matches Admission::Forward { request, .. } ==> arrives_whole(*req, request@),
{
    let subdomain = request_subdomain(&req.headers);
    if subdomain.as_str().is_empty() {
        return Admission::Refuse {
            subdomain: "-".to_string(),
            reply: PublicReply { status: 400, message: "missing host header".to_string() },
        };
    }
    match registry.route(&subdomain) {
        None => Admission::Refuse {
            subdomain,
            reply: PublicReply { status: 502, message: "tunnel not found".to_string() },
        },
        Some(conn) => {
            let request = tunnel_request(req, id);
            Admission::Forward { subdomain, conn, request }
        },
    }
}

/// What becomes of a public request, which gets a fresh random id.
pub fn admit_request(registry: &TunnelRegistry, req: &PublicRequest) -> (a: Admission)
    requires
        encodable(*req),
    ensures
        exists|id: Seq<char>| #[trigger] uuid_form(id) && a@ == admitted(registry@, *req, id),
        a matches Admission::Forward { request, .. } ==> arrives_whole(*req, request@),
{
    let id = random_uuid();
    let ghost id_text = id@;
    assert(uuid_form(id_text));
    admit_as(registry, req, id)
}

// ---------------------------------------------------------------------------
// Requests in flight
// ---------------------------------------------------------------------------

/// The requests of one tunnel that await their response, and the limit on the bodies of the
/// responses.
pub struct PendingRequests {
    slots: DashMap<String, InFlight>,
    limit: Option<usize>,
}

/// The content of [`PendingRequests`].
pub struct PendingView {
    pub slots: Map<Seq<char>, InFlight>,
    /// The most bytes that one response body may have; none where it may have any number.
    pub limit: Option<usize>,
}

impl View for PendingRequests {
    type V = PendingView;

    closed spec fn view(&self) -> PendingView {
        PendingView { slots: in_flight(self.slots), limit: self.limit }
    }
}

/// What became of handing a frame to the socket of a client.
#[derive(Clone, Copy, PartialEq, Eq, Structural)]
pub enum QueueOutcome {
    /// It waits for the socket.
    Queued,
    /// Too many frames wait already.
    Full,
    /// The socket is gone.
    Closed,
}

/// Why no response head came.
#[derive(Clone, Copy, PartialEq, Eq, Structural)]
pub enum NoHead {
    /// The tunnel let go of the request.
    Dropped,
    /// It took too long.
    TimedOut,
}

/// The answer to a request that could not be handed to the client.
pub open spec fn queue_reply(outcome: QueueOutcome) -> Option<ReplyView> {
    match outcome {
        QueueOutcome::Queued => None,
        QueueOutcome::Full => Some(ReplyView { status: 503, message: "tunnel overloaded"@ }),
        QueueOutcome::Closed => Some(ReplyView { status: 502, message: "tunnel disconnected"@ }),
    }
}

/// The answer to a request for which no response head came.
pub open spec fn no_head_reply(why: NoHead) -> ReplyView {
    match why {
        NoHead::Dropped => ReplyView { status: 502, message: "tunnel dropped request"@ },
        NoHead::TimedOut => ReplyView { status: 504, message: "tunnel headers timeout"@ },
    }
}

/// The frame that cancels a request.
pub fn cancel_frame(id: &str) -> (m: TunnelMessage)
    ensures
        m@ == (MessageView::Cancel { id: id@ }),
{
    TunnelMessage::Cancel { id: id.to_string() }
}

/// What the relay does about a frame of a client.
pub enum DispatchAction {
    /// Nothing.
    Ignore,
    /// The body with this handle ends.
    Release(u64),
    /// The head goes to the handle `head`; its body is the one with the handle `body`.
    DeliverHead { head: u64, body: u64, status: u16, headers: StringMap<String> },
    /// The bytes go to the body; what came of it is told to [`PendingRequests::on_pushed`].
    Push { body: u64, id: String, bytes: Vec<u8>, last: bool },
    /// A head of the relay's own, without headers and with a text for its body.
    SynthesizeHead { head: u64, status: u16, message: String },
    /// The body with this handle breaks off, and the frame, if there is one, goes to the client.
    FailBody { body: u64, message: String, cancel: Option<TunnelMessage> },
}

/// The content of a [`DispatchAction`].
pub enum DispatchView {
    Ignore,
    Release(u64),
    DeliverHead { head: u64, body: u64, status: u16, headers: Map<Seq<char>, Seq<char>> },
    Push { body: u64, id: Seq<char>, bytes: Seq<u8>, last: bool },
    SynthesizeHead { head: u64, status: u16, message: Seq<char> },
    FailBody { body: u64, message: Seq<char>, cancel: Option<MessageView> },
}

impl View for DispatchAction {
    type V = DispatchView;

    open spec fn view(&self) -> DispatchView {
        match self {
            DispatchAction::Ignore => DispatchView::Ignore,
            DispatchAction::Release(body) => DispatchView::Release(*body),
            DispatchAction::DeliverHead { head, body, status, headers } =>
                DispatchView::DeliverHead {
                head: *head,
                body: *body,
                status: *status,
                headers: headers@,
            },
            DispatchAction::Push { body, id, bytes, last } => DispatchView::Push {
                body: *body,
                id: id@,
                bytes: bytes@,
                last: *last,
            },
            DispatchAction::SynthesizeHead { head, status, message } =>
                DispatchView::SynthesizeHead { head: *head, status: *status, message: message@ },
            DispatchAction::FailBody { body, message, cancel } => DispatchView::FailBody {
                body: *body,
                message: message@,
                cancel: match cancel {
                    Some(m) => Some(m@),
                    None => None,
                },
            },
        }
    }
}

/// The bytes that a chunk brings: none where its data is empty or malformed.
pub open spec fn chunk_bytes(data: Seq<char>) -> Option<Seq<u8>> {
    if data.len() == 0 {
        None
    } else {
        base64_bytes(data)
    }
}

/// Whether a body of `len` bytes stays within the limit.
pub open spec fn within(limit: Option<usize>, len: int) -> bool {
    match limit {
        Some(most) => len <= most,
        None => true,
    }
}

/// The count of a body that had the count `passed` before it got `len` bytes more.
pub open spec fn counted(limit: Option<usize>, passed: usize, len: nat) -> usize {
    match limit {
        Some(_) => (passed + len) as usize,
        None => passed,
    }
}

/// Bytes for the body of a request of which `passed` bytes went before. Where they would take it
/// past the limit, the body breaks off and the client is told to cancel.
pub open spec fn offered(
    slots: Map<Seq<char>, InFlight>,
    limit: Option<usize>,
    id: Seq<char>,
    body: u64,
    passed: usize,
    bytes: Seq<u8>,
    last: bool,
) -> (Map<Seq<char>, InFlight>, DispatchView) {
    if within(limit, passed + bytes.len()) {
        (
            slots.insert(
                id,
                InFlight::Streaming { body, passed: counted(limit, passed, bytes.len()) },
            ),
            DispatchView::Push { body, id, bytes, last },
        )
    } else {
        (
            slots.remove(id),
            DispatchView::FailBody {
                body,
                message: "response body too large"@,
                cancel: Some(MessageView::Cancel { id }),
            },
        )
    }
}

/// One frame of a client: the requests in flight behind it, and what the relay does. `limit` is
/// the most bytes that a response body may have, if there is a limit, and `body` the handle for
/// the body of a head that the frame may bring.
pub open spec fn dispatched(
    slots: Map<Seq<char>, InFlight>,
    limit: Option<usize>,
    m: MessageView,
    body: u64,
) -> (Map<Seq<char>, InFlight>, DispatchView) {
    match m {
        MessageView::ResponseHead { id, status, headers } => match slots.get(id) {
            None => (slots, DispatchView::Ignore),
            Some(InFlight::AwaitingHead(head)) => (
                slots.insert(id, InFlight::Streaming { body, passed: 0 }),
                DispatchView::DeliverHead { head, body, status, headers },
            ),
            Some(InFlight::Streaming { body: stream, .. }) => (
                slots.remove(id),
                DispatchView::Release(stream),
            ),
        },
        MessageView::ResponseChunk { id, data, last } => match slots.get(id) {
            None => (slots, DispatchView::Ignore),
            Some(InFlight::AwaitingHead(_)) => (slots, DispatchView::Ignore),
            Some(InFlight::Streaming { body: stream, passed }) => match chunk_bytes(data) {
                Some(bytes) => offered(slots, limit, id, stream, passed, bytes, last),
                None => if last {
                    (slots.remove(id), DispatchView::Release(stream))
                } else {
                    (slots, DispatchView::Ignore)
                },
            },
        },
        MessageView::ResponseError { id, message } => match slots.get(id) {
            None => (slots, DispatchView::Ignore),
            Some(InFlight::AwaitingHead(head)) => (
                slots.remove(id),
                DispatchView::SynthesizeHead {
                    head,
                    status: 502,
                    message: "upstream error: "@ + message,
                },
            ),
            Some(InFlight::Streaming { body: stream, .. }) => (
                slots.remove(id),
                DispatchView::FailBody { body: stream, message, cancel: None },
            ),
        },
        MessageView::Request(_) => (slots, DispatchView::Ignore),
        MessageView::Cancel { .. } => (slots, DispatchView::Ignore),
    }
}

/// The requests in flight after bytes were pushed into a body.
pub open spec fn pushed(
    slots: Map<Seq<char>, InFlight>,
    id: Seq<char>,
    last: bool,
    taken: bool,
) -> Map<Seq<char>, InFlight> {
    if !taken || last {
        slots.remove(id)
    } else {
        slots
    }
}

/// The requests in flight after one more is about to go out.
pub open spec fn awaiting(slots: Map<Seq<char>, InFlight>, id: Seq<char>, head: u64) -> Map<
    Seq<char>,
    InFlight,
> {
    slots.insert(id, InFlight::AwaitingHead(head))
}

/// The requests in flight after one was handed to the socket of its client, or could not be.
pub open spec fn after_queueing(
    slots: Map<Seq<char>, InFlight>,
    id: Seq<char>,
    outcome: QueueOutcome,
) -> Map<Seq<char>, InFlight> {
    match outcome {
        QueueOutcome::Queued => slots,
        QueueOutcome::Full => slots.remove(id),
        QueueOutcome::Closed => slots.remove(id),
    }
}

/// The requests in flight after one without a head was let go.
pub open spec fn after_no_head(slots: Map<Seq<char>, InFlight>, id: Seq<char>) -> Map<
    Seq<char>,
    InFlight,
> {
    slots.remove(id)
}

/// The frame for the client of a request without a head, where it may still be at it.
pub open spec fn no_head_cancel(id: Seq<char>, why: NoHead) -> Option<MessageView> {
    match why {
        NoHead::Dropped => None,
        NoHead::TimedOut => Some(MessageView::Cancel { id }),
    }
}

/// What is let go after bytes were pushed into a body.
pub open spec fn push_releases(
    slots: Map<Seq<char>, InFlight>,
    id: Seq<char>,
    last: bool,
    taken: bool,
) -> Option<InFlight> {
    if taken && !last {
        None
    } else {
        slots.get(id)
    }
}

/// The frame for the client after bytes were pushed into a body.
pub open spec fn push_cancel(
    slots: Map<Seq<char>, InFlight>,
    id: Seq<char>,
    taken: bool,
) -> Option<MessageView> {
    if !taken && slots.contains_key(id) {
        Some(MessageView::Cancel { id })
    } else {
        None
    }
}

/// The content of a frame that may be missing.
pub open spec fn opt_message(m: Option<TunnelMessage>) -> Option<MessageView> {
    match m {
        Some(m) => Some(m@),
        None => None,
    }
}

impl PendingRequests {
    /// Nothing is in flight. No response body may have more than `limit` bytes, where there is a
    /// limit.
    pub fn new(limit: Option<usize>) -> (p: PendingRequests)
        ensures
            p@ == (PendingView { slots: Map::<Seq<char>, InFlight>::empty(), limit }),
    {
        PendingRequests { slots: new_in_flight(), limit }
    }

    /// A request is about to go out; its response head is wanted by this handle.
    pub fn await_head(&mut self, id: &str, head: u64)
        ensures
            final(self)@.slots == old(self)@.slots.insert(id@, InFlight::AwaitingHead(head)),
            final(self)@.slots == awaiting(old(self)@.slots, id@, head),
            final(self)@.limit == old(self)@.limit,
    {
        let _ = insert_in_flight(&mut self.slots, id.to_string(), InFlight::AwaitingHead(head));
    }

    /// The answer to a request that could not be handed to the client, which is then no more in
    /// flight.
    pub fn on_queued(&mut self, id: &str, outcome: QueueOutcome) -> (reply: Option<PublicReply>)
        ensures
            final(self)@.slots == (if outcome == QueueOutcome::Queued {
                old(self)@.slots
            } else {
                old(self)@.slots.remove(id@)
            }),
            final(self)@.slots == after_queueing(old(self)@.slots, id@, outcome),
            final(self)@.limit == old(self)@.limit,
            (match reply {
                Some(r) => Some(r@),
                None => None,
            }) == queue_reply(outcome),
    {
        match outcome {
            QueueOutcome::Queued => None,
            QueueOutcome::Full => {
                let _ = remove_in_flight(&mut self.slots, id);
                Some(PublicReply { status: 503, message: "tunnel overloaded".to_string() })
            },
            QueueOutcome::Closed => {
                let _ = remove_in_flight(&mut self.slots, id);
                Some(PublicReply { status: 502, message: "tunnel disconnected".to_string() })
            },
        }
    }

    /// A request for which no head came is let go. Gives back what was let go, the answer, and the
    /// frame that cancels the request where the client may still be at it.
    pub fn on_no_head(&mut self, id: &str, why: NoHead) -> (r: (
        Option<InFlight>,
        PublicReply,
        Option<TunnelMessage>,
    ))
        ensures
            final(self)@.slots == old(self)@.slots.remove(id@),
            final(self)@.limit == old(self)@.limit,
            r.0 == old(self)@.slots.get(id@),
            r.1@ == no_head_reply(why),
            match r.2 {
                Some(m) => why == NoHead::TimedOut && m@ == (MessageView::Cancel { id: id@ }),
                None => why == NoHead::Dropped,
            },
            final(self)@.slots == after_no_head(old(self)@.slots, id@),
            opt_message(r.2) == no_head_cancel(id@, why),
    {
        let slot = remove_in_flight(&mut self.slots, id);
        match why {
            NoHead::Dropped => (
                slot,
                PublicReply { status: 502, message: "tunnel dropped request".to_string() },
                None,
            ),
            NoHead::TimedOut => (
                slot,
                PublicReply { status: 504, message: "tunnel headers timeout".to_string() },
                Some(cancel_frame(id)),
            ),
        }
    }

    /// Routes a frame of the client to the request that it is for. Frames for unknown requests,
    /// and frames sent the wrong direction, are ignored. A response body that would grow past the
    /// limit breaks off.
    pub fn dispatch_frame(&mut self, msg: TunnelMessage, body: u64) -> (action: DispatchAction)
        ensures
            (final(self)@.slots, action@) == dispatched(
                old(self)@.slots,
                old(self)@.limit,
                msg@,
                body,
            ),
            final(self)@.limit == old(self)@.limit,
    {
        match msg {
            TunnelMessage::ResponseHead { id, status, headers } => {
                match remove_in_flight(&mut self.slots, &id) {
                    None => {
                        assert(self@.slots =~= old(self)@.slots);
                        DispatchAction::Ignore
                    },
                    Some(InFlight::Streaming { body: stream, .. }) => DispatchAction::Release(
                        stream,
                    ),
                    Some(InFlight::AwaitingHead(head)) => {
                        let ghost key = id@;
                        let slot = InFlight::Streaming { body, passed: 0 };
                        let _ = insert_in_flight(&mut self.slots, id, slot);
                        assert(self@.slots =~= old(self)@.slots.insert(key, slot));
                        DispatchAction::DeliverHead { head, body, status, headers }
                    },
                }
            },
            TunnelMessage::ResponseChunk { id, data, last } => {
                match get_in_flight(&self.slots, &id) {
                    Some(InFlight::Streaming { body: stream, passed }) => {
                        let bytes: Option<Vec<u8>> = if data.as_str().is_empty() {
                            None
                        } else {
                            decode_base64(&data)
                        };
                        match bytes {
                            Some(bytes) => self.offer(id, stream, passed, bytes, last),
                            None => {
                                if last {
                                    let _ = remove_in_flight(&mut self.slots, &id);
                                    DispatchAction::Release(stream)
                                } else {
                                    DispatchAction::Ignore
                                }
                            },
                        }
                    },
                    _ => DispatchAction::Ignore,
                }
            },
            TunnelMessage::ResponseError { id, message } => {
                match remove_in_flight(&mut self.slots, &id) {
                    None => {
                        assert(self@.slots =~= old(self)@.slots);
                        DispatchAction::Ignore
                    },
                    Some(InFlight::AwaitingHead(head)) => {
                        let mut text: String = "upstream error: ".to_string();
                        text.append(&message);
                        DispatchAction::SynthesizeHead { head, status: 502, message: text }
                    },
                    Some(InFlight::Streaming { body: stream, .. }) => DispatchAction::FailBody {
                        body: stream,
                        message,
                        cancel: None,
                    },
                }
            },
            TunnelMessage::Request(_) => DispatchAction::Ignore,
            TunnelMessage::Cancel { .. } => DispatchAction::Ignore,
        }
    }

    /// Bytes for the body of a request of which `passed` bytes went before.
    fn offer(
        &mut self,
        id: String,
        body: u64,
        passed: usize,
        bytes: Vec<u8>,
        last: bool,
    ) -> (action: DispatchAction)
        ensures
            (final(self)@.slots, action@) == offered(
                old(self)@.slots,
                old(self)@.limit,
                id@,
                body,
                passed,
                bytes@,
                last,
            ),
            final(self)@.limit == old(self)@.limit,
    {
        let total: Option<usize> = match self.limit {
            None => Some(passed),
            Some(most) => if passed <= most && bytes.len() <= most - passed {
                Some(passed + bytes.len())
            } else {
                None
            },
        };
        if let Some(passed) = total {
            let slot = InFlight::Streaming { body, passed };
            let _ = insert_in_flight(&mut self.slots, id.clone(), slot);
            DispatchAction::Push { body, id, bytes, last }
        } else {
            let _ = remove_in_flight(&mut self.slots, &id);
            DispatchAction::FailBody {
                body,
                message: "response body too large".to_string(),
                cancel: Some(cancel_frame(&id)),
            }
        }
    }

    /// What follows when bytes were pushed into the body of a request: where the public client
    /// was gone, the request is let go and the client is told to cancel it; behind the last chunk
    /// it is let go. Gives back what was let go.
    pub fn on_pushed(&mut self, id: &str, last: bool, taken: bool) -> (r: (
        Option<InFlight>,
        Option<TunnelMessage>,
    ))
        ensures
            final(self)@.slots == pushed(old(self)@.slots, id@, last, taken),
            final(self)@.limit == old(self)@.limit,
            r.0 == (if !taken || last {
                old(self)@.slots.get(id@)
            } else {
                None
            }),
            match r.1 {
                Some(m) => !taken && old(self)@.slots.contains_key(id@) && m@ == (
                MessageView::Cancel { id: id@ }),
                None => taken || !old(self)@.slots.contains_key(id@),
            },
            r.0 == push_releases(old(self)@.slots, id@, last, taken),
            opt_message(r.1) == push_cancel(old(self)@.slots, id@, taken),
    {
        if !taken {
            let slot = remove_in_flight(&mut self.slots, id);
            match slot {
                Some(s) => (Some(s), Some(cancel_frame(id))),
                None => (None, None),
            }
        } else if last {
            (remove_in_flight(&mut self.slots, id), None)
        } else {
            (None, None)
        }
    }
}

// ---------------------------------------------------------------------------
// The response
// ---------------------------------------------------------------------------

/// The head of a public response.
pub struct PublicHead {
    pub status: u16,
    pub headers: Vec<(String, String)>,
}

/// The status of the public response to one with this status.
pub open spec fn public_status(status: u16) -> u16 {
    if 100 <= status <= 999 {
        status
    } else {
        502
    }
}

/// The head of the public response to a tunnelled one: its status, or 502 where it is none, and
/// the headers that may pass.
pub fn public_head(status: u16, headers: &StringMap<String>) -> (head: PublicHead)
    ensures
        head.status == (if 100 <= status && status <= 999 {
            status
        } else {
            502
        }),
        head.status == public_status(status),
        header_list(head.headers@) == for_public(headers.pairs()),
{
    let code: u16 = match status_code(status) {
        Some(s) => s,
        None => 502,
    };
    PublicHead { status: code, headers: public_headers(headers) }
}

// ---------------------------------------------------------------------------
// The log
// ---------------------------------------------------------------------------

/// The colour of a status in the log.
#[derive(Clone, Copy, PartialEq, Eq, Structural)]
pub enum StatusColor {
    Green,
    Yellow,
    Red,
}

/// The colour of a status in the log.
pub open spec fn color_of(status: u16) -> StatusColor {
    if status < 300 {
        StatusColor::Green
    } else if status < 400 {
        StatusColor::Yellow
    } else {
        StatusColor::Red
    }
}

/// The colour of a status in the log: green below 300, yellow below 400, red from there on.
pub fn status_color(status: u16) -> (c: StatusColor)
    ensures
        c == (if status < 300 {
            StatusColor::Green
        } else if status < 400 {
            StatusColor::Yellow
        } else {
            StatusColor::Red
        }),
        c == color_of(status),
{
    if status < 300 {
        StatusColor::Green
    } else if status < 400 {
        StatusColor::Yellow
    } else {
        StatusColor::Red
    }
}

/// The line that the log has for a request.
pub open spec fn log_line(
    now: Seq<char>,
    subdomain: Seq<char>,
    method: Seq<char>,
    path: Seq<char>,
    status: Seq<char>,
    millis: nat,
) -> Seq<char> {
    "  "@ + now + "  "@ + subdomain + "  "@ + method + " "@ + path + "  -> "@ + status + "  "@
        + decimal(millis) + "ms"@
}

/// The line that the log has for a request.
pub fn relay_log(
    now: &str,
    subdomain: &str,
    method: &str,
    path: &str,
    status: &str,
    millis: u128,
) -> (line: String)
    ensures
        line@ == "  "@ + now@ + "  "@ + subdomain@ + "  "@ + method@ + " "@ + path@ + "  -> "@
            + status@ + "  "@ + decimal(millis as nat) + "ms"@,
        line@ == log_line(now@, subdomain@, method@, path@, status@, millis as nat),
{
    let mut line: String = "  ".to_string();
    line.append(now);
    line.append("  ");
    line.append(subdomain);
    line.append("  ");
    line.append(method);
    line.append(" ");
    line.append(path);
    line.append("  -> ");
    line.append(status);
    line.append("  ");
    push_decimal(&mut line, millis);
    line.append("ms");
    line
}

// ---------------------------------------------------------------------------
// Laws
// ---------------------------------------------------------------------------

/// A request to the public URL of a tunnel is routed by the tunnel's subdomain, where that is a
/// single label. What follows the base domain, such as a port, changes nothing.
pub proof fn law_public_host_routes(subdomain: Seq<char>, rest: Seq<char>)
    requires
        !subdomain.contains('.'),
    ensures
        host_label(subdomain + "."@ + rest) == subdomain,
{
    reveal_strlit(".");
    let host = subdomain + "."@ + rest;
    assert forall|i: int| 0 <= i < subdomain.len() implies host[i] != '.' by {
        assert(host[i] == subdomain[i]);
        assert(subdomain.contains(subdomain[i]));
    }
    assert(host[subdomain.len() as int] == '.');
    lemma_first_pos_is(host, '.', subdomain.len() as int);
    assert(host.take(subdomain.len() as int) =~= subdomain);
}

/// A request whose host is a subdomain of the base domain goes, whole, to the connection that
/// holds the subdomain.
pub proof fn law_tunnel_gets_its_requests(
    tunnels: Map<Seq<char>, u64>,
    subdomain: Seq<char>,
    conn: u64,
    base_domain: Seq<char>,
    req: PublicRequest,
    id: Seq<char>,
)
    requires
        subdomain.len() > 0,
        !subdomain.contains('.'),
        tunnels.get(subdomain) == Some(conn),
        host_of(req.headers.deep_view()) == subdomain + "."@ + base_domain,
    ensures
        admitted(tunnels, req, id) == (AdmissionView::Forward {
            subdomain,
            conn,
            request: tunnelled(req, id),
        }),
{
    law_public_host_routes(subdomain, base_domain);
}

/// The request that a frame of the client is about.
pub open spec fn response_id(m: MessageView) -> Option<Seq<char>> {
    match m {
        MessageView::ResponseHead { id, .. } => Some(id),
        MessageView::ResponseChunk { id, .. } => Some(id),
        MessageView::ResponseError { id, .. } => Some(id),
        MessageView::Request(_) => None,
        MessageView::Cancel { .. } => None,
    }
}

/// A frame that the relay should send, not get, is ignored.
pub proof fn law_wrong_direction_is_ignored(
    slots: Map<Seq<char>, InFlight>,
    limit: Option<usize>,
    m: MessageView,
    body: u64,
)
    requires
        m is Request || m is Cancel,
    ensures
        dispatched(slots, limit, m, body) == (slots, DispatchView::Ignore),
{
}

/// A frame for a request that is not in flight is ignored.
pub proof fn law_unknown_id_is_ignored(
    slots: Map<Seq<char>, InFlight>,
    limit: Option<usize>,
    m: MessageView,
    body: u64,
)
    requires
        response_id(m) matches Some(id) ==> !slots.contains_key(id),
    ensures
        dispatched(slots, limit, m, body) == (slots, DispatchView::Ignore),
{
}

/// A frame changes nothing of any request but its own.
pub proof fn law_dispatch_keeps_others(
    slots: Map<Seq<char>, InFlight>,
    limit: Option<usize>,
    m: MessageView,
    body: u64,
    other: Seq<char>,
)
    requires
        response_id(m) != Some(other),
    ensures
        dispatched(slots, limit, m, body).0.get(other) == slots.get(other),
{
}

/// A request whose head came, or that is not in flight, gets no other head.
pub proof fn law_head_comes_once(
    slots: Map<Seq<char>, InFlight>,
    limit: Option<usize>,
    m: MessageView,
    body: u64,
    id: Seq<char>,
)
    requires
        !(slots.get(id) matches Some(InFlight::AwaitingHead(_))),
    ensures
        !(dispatched(slots, limit, m, body).0.get(id) matches Some(InFlight::AwaitingHead(_))),
        response_id(m) == Some(id) ==> !(dispatched(slots, limit, m, body).1 is DeliverHead) && !(
        dispatched(slots, limit, m, body).1 is SynthesizeHead),
{
}

/// A frame as it comes from the client, with the handle for the body of a head that it may bring,
/// and whether the public client took the bytes that it may bring.
pub struct Arrival {
    pub frame: MessageView,
    pub body: u64,
    pub taken: bool,
}

/// The requests in flight after a frame and what came of its bytes.
pub open spec fn handled(
    slots: Map<Seq<char>, InFlight>,
    limit: Option<usize>,
    arrival: Arrival,
) -> Map<Seq<char>, InFlight> {
    match dispatched(slots, limit, arrival.frame, arrival.body) {
        (after, DispatchView::Push { id, last, .. }) => pushed(after, id, last, arrival.taken),
        (after, _) => after,
    }
}

/// Once the last chunk of a response came, its request is no more in flight, whether or not the
/// public client was still there; so every further frame for it is ignored.
pub proof fn law_last_chunk_ends(
    slots: Map<Seq<char>, InFlight>,
    limit: Option<usize>,
    id: Seq<char>,
    data: Seq<char>,
    body: u64,
    taken: bool,
    m: MessageView,
)
    requires
        slots.get(id) matches Some(InFlight::Streaming { .. }),
        response_id(m) == Some(id),
    ensures
        ({
            let frame = MessageView::ResponseChunk { id, data, last: true };
            let after = handled(slots, limit, Arrival { frame, body, taken });
            &&& !after.contains_key(id)
            &&& dispatched(after, limit, m, body) == (after, DispatchView::Ignore)
        }),
{
}

/// Once the public client was found gone, its request is no more in flight, so it is cancelled
/// once and every further frame for it is ignored.
pub proof fn law_gone_client_ends(
    slots: Map<Seq<char>, InFlight>,
    limit: Option<usize>,
    id: Seq<char>,
    last: bool,
    body: u64,
    m: MessageView,
)
    requires
        response_id(m) == Some(id),
    ensures
        !pushed(slots, id, last, false).contains_key(id),
        dispatched(pushed(slots, id, last, false), limit, m, body) == (
            pushed(slots, id, last, false),
            DispatchView::Ignore,
        ),
{
}

/// A chunk that would take a body past the limit breaks the body off and cancels the request,
/// which is then no more in flight; so every further frame for it is ignored.
pub proof fn law_overlong_body_breaks_off(
    slots: Map<Seq<char>, InFlight>,
    limit: Option<usize>,
    id: Seq<char>,
    data: Seq<char>,
    last: bool,
    stream: u64,
    passed: usize,
    body: u64,
    m: MessageView,
)
    requires
        slots.get(id) == Some(InFlight::Streaming { body: stream, passed }),
        chunk_bytes(data) matches Some(bytes) && !within(limit, passed + bytes.len()),
        response_id(m) == Some(id),
    ensures
        ({
            let (after, action) = dispatched(
                slots,
                limit,
                MessageView::ResponseChunk { id, data, last },
                body,
            );
            &&& after == slots.remove(id)
            &&& action matches DispatchView::FailBody { body: to, cancel, .. } && to == stream
                && cancel == Some(MessageView::Cancel { id })
            &&& dispatched(after, limit, m, body) == (after, DispatchView::Ignore)
        }),
{
}

/// A request that the relay answered itself leaves nothing in flight.
pub proof fn law_refused_leaves_nothing(
    slots: Map<Seq<char>, InFlight>,
    id: Seq<char>,
    head: u64,
)
    requires
        !slots.contains_key(id),
    ensures
        slots.insert(id, InFlight::AwaitingHead(head)).remove(id) == slots,
{
    assert(slots.insert(id, InFlight::AwaitingHead(head)).remove(id) =~= slots);
}

/// The requests in flight after some frames.
pub open spec fn relayed(
    slots: Map<Seq<char>, InFlight>,
    limit: Option<usize>,
    arrivals: Seq<Arrival>,
) -> Map<Seq<char>, InFlight>
    decreases arrivals.len(),
{
    if arrivals.len() == 0 {
        slots
    } else {
        handled(relayed(slots, limit, arrivals.drop_last()), limit, arrivals.last())
    }
}

/// The bytes that a frame brings to a body.
pub open spec fn poured_by(action: DispatchView, body: u64) -> Seq<u8> {
    match action {
        DispatchView::Push { body: to, bytes, .. } => if to == body {
            bytes
        } else {
            Seq::empty()
        },
        _ => Seq::empty(),
    }
}

/// All bytes that some frames bring to the body with the handle `body`, in order.
pub open spec fn poured(
    slots: Map<Seq<char>, InFlight>,
    limit: Option<usize>,
    arrivals: Seq<Arrival>,
    body: u64,
) -> Seq<u8>
    decreases arrivals.len(),
{
    if arrivals.len() == 0 {
        Seq::empty()
    } else {
        let rest = arrivals.drop_last();
        let last = arrivals.last();
        poured(slots, limit, rest, body) + poured_by(
            dispatched(relayed(slots, limit, rest), limit, last.frame, last.body).1,
            body,
        )
    }
}

/// The arrivals that are about one request, in order.
pub open spec fn about(arrivals: Seq<Arrival>, id: Seq<char>) -> Seq<Arrival>
    decreases arrivals.len(),
{
    if arrivals.len() == 0 {
        Seq::empty()
    } else if response_id(arrivals.last().frame) == Some(id) {
        about(arrivals.drop_last(), id).push(arrivals.last())
    } else {
        about(arrivals.drop_last(), id)
    }
}

/// The frames of some arrivals.
pub open spec fn frames_of(arrivals: Seq<Arrival>) -> Seq<MessageView> {
    Seq::new(arrivals.len(), |i: int| arrivals[i].frame)
}

/// The public client took all bytes.
pub open spec fn all_taken(arrivals: Seq<Arrival>) -> bool {
    forall|i: int| 0 <= i < arrivals.len() ==> (#[trigger] arrivals[i]).taken
}

/// Whether a request streams into the body with the handle `body`.
pub open spec fn streams_into(slot: Option<InFlight>, body: u64) -> bool {
    slot matches Some(InFlight::Streaming { body: to, .. }) && to == body
}

/// No request but `id` streams into the body with the handle `body`.
pub open spec fn streams_alone(slots: Map<Seq<char>, InFlight>, id: Seq<char>, body: u64) -> bool {
    forall|other: Seq<char>| other != id ==> !streams_into(#[trigger] slots.get(other), body)
}

/// Only frames about `id` come with the handle `body`.
pub open spec fn handle_is_for(arrivals: Seq<Arrival>, id: Seq<char>, body: u64) -> bool {
    forall|i: int|
        0 <= i < arrivals.len() && (#[trigger] arrivals[i]).body == body ==> response_id(
            arrivals[i].frame,
        ) == Some(id)
}

proof fn lemma_handle_is_for_rest(arrivals: Seq<Arrival>, id: Seq<char>, body: u64)
    requires
        arrivals.len() > 0,
        handle_is_for(arrivals, id, body),
    ensures
        handle_is_for(arrivals.drop_last(), id, body),
        arrivals.last().body == body ==> response_id(arrivals.last().frame) == Some(id),
{
    let rest = arrivals.drop_last();
    assert forall|i: int|
        0 <= i < rest.len() && (#[trigger] rest[i]).body == body implies response_id(rest[i].frame)
        == Some(id) by {
        assert(rest[i] == arrivals[i]);
    }
    assert(arrivals[arrivals.len() - 1] == arrivals.last());
}

proof fn lemma_streams_alone(
    slots: Map<Seq<char>, InFlight>,
    limit: Option<usize>,
    arrival: Arrival,
    id: Seq<char>,
    body: u64,
)
    requires
        streams_alone(slots, id, body),
        arrival.body == body ==> response_id(arrival.frame) == Some(id),
    ensures
        streams_alone(handled(slots, limit, arrival), id, body),
{
    let after = handled(slots, limit, arrival);
    assert forall|other: Seq<char>| other != id implies !streams_into(
        #[trigger] after.get(other),
        body,
    ) by {
        assert(!streams_into(slots.get(other), body));
    }
}

/// What becomes of one request does not depend on the frames about others, however the frames of
/// many requests are interleaved.
pub proof fn law_requests_do_not_mix(
    slots: Map<Seq<char>, InFlight>,
    limit: Option<usize>,
    arrivals: Seq<Arrival>,
    id: Seq<char>,
    body: u64,
)
    requires
        streams_alone(slots, id, body),
        handle_is_for(arrivals, id, body),
    ensures
        relayed(slots, limit, arrivals).get(id) == relayed(slots, limit, about(arrivals, id)).get(
            id,
        ),
        poured(slots, limit, arrivals, body) == poured(slots, limit, about(arrivals, id), body),
        streams_alone(relayed(slots, limit, arrivals), id, body),
        streams_alone(relayed(slots, limit, about(arrivals, id)), id, body),
    decreases arrivals.len(),
{
    if arrivals.len() > 0 {
        let rest = arrivals.drop_last();
        let last = arrivals.last();
        lemma_handle_is_for_rest(arrivals, id, body);
        law_requests_do_not_mix(slots, limit, rest, id, body);
        let mine = about(rest, id);
        let state = relayed(slots, limit, rest);
        let own = relayed(slots, limit, mine);
        lemma_streams_alone(state, limit, last, id, body);
        if response_id(last.frame) == Some(id) {
            assert(mine.push(last).drop_last() =~= mine);
            lemma_streams_alone(own, limit, last, id, body);
            assert(dispatched(state, limit, last.frame, last.body).1 == dispatched(
                own,
                limit,
                last.frame,
                last.body,
            ).1);
        } else {
            assert(last.body != body);
            let from = response_id(last.frame);
            if from is Some {
                assert(!streams_into(state.get(from->Some_0), body));
            }
            assert(poured_by(dispatched(state, limit, last.frame, last.body).1, body)
                =~= Seq::empty());
            assert(poured(slots, limit, arrivals, body) =~= poured(slots, limit, rest, body));
        }
    }
}

/// Whatever the client sends, and however the frames of many requests are interleaved, no body of
/// a public response gets more bytes than the limit, where there is one.
pub proof fn law_body_stays_within_limit(
    slots: Map<Seq<char>, InFlight>,
    limit: usize,
    arrivals: Seq<Arrival>,
    id: Seq<char>,
    body: u64,
)
    requires
        streams_alone(slots, id, body),
        !streams_into(slots.get(id), body),
        handle_is_for(arrivals, id, body),
    ensures
        poured(slots, Some(limit), arrivals, body).len() <= limit,
{
    lemma_poured_is_counted(slots, limit, arrivals, id, body);
}

proof fn lemma_poured_is_counted(
    slots: Map<Seq<char>, InFlight>,
    limit: usize,
    arrivals: Seq<Arrival>,
    id: Seq<char>,
    body: u64,
)
    requires
        streams_alone(slots, id, body),
        !streams_into(slots.get(id), body),
        handle_is_for(arrivals, id, body),
    ensures
        poured(slots, Some(limit), arrivals, body).len() <= limit,
        streams_alone(relayed(slots, Some(limit), arrivals), id, body),
        match relayed(slots, Some(limit), arrivals).get(id) {
            None => true,
            Some(InFlight::AwaitingHead(_)) => poured(
                slots,
                Some(limit),
                arrivals,
                body,
            ).len() == 0,
            Some(InFlight::Streaming { body: to, passed }) => poured(
                slots,
                Some(limit),
                arrivals,
                body,
            ).len() == if to == body {
                passed as nat
            } else {
                0
            },
        },
    decreases arrivals.len(),
{
    if arrivals.len() > 0 {
        let rest = arrivals.drop_last();
        let last = arrivals.last();
        let state = relayed(slots, Some(limit), rest);
        lemma_handle_is_for_rest(arrivals, id, body);
        lemma_poured_is_counted(slots, limit, rest, id, body);
        lemma_streams_alone(state, Some(limit), last, id, body);
        let from = response_id(last.frame);
        if from is Some && from != Some(id) {
            assert(!streams_into(state.get(from->Some_0), body));
        }
    }
}

proof fn lemma_opened_pours(
    slots: Map<Seq<char>, InFlight>,
    limit: Option<usize>,
    arrivals: Seq<Arrival>,
    id: Seq<char>,
    head: u64,
    body: u64,
)
    requires
        slots.get(id) == Some(InFlight::AwaitingHead(head)),
        opened(frames_of(arrivals), id),
        all_taken(arrivals),
        arrivals[0].body == body,
    ensures
        ({
            let bytes = delivered(frames_of(arrivals));
            let state = relayed(slots, limit, arrivals);
            let got = poured(slots, limit, arrivals, body);
            if within(limit, bytes.len() as int) {
                &&& state.get(id) == Some(
                    InFlight::Streaming { body, passed: counted(limit, 0, bytes.len()) },
                )
                &&& got == bytes
            } else {
                &&& state.get(id) is None
                &&& got.is_prefix_of(bytes)
            }
        }),
    decreases arrivals.len(),
{
    let rest = arrivals.drop_last();
    let last = arrivals.last();
    let frames = frames_of(arrivals);
    assert(frames.drop_last() =~= frames_of(rest));
    if arrivals.len() == 1 {
        reveal_with_fuel(relayed, 2);
        reveal_with_fuel(poured, 2);
        reveal_with_fuel(delivered, 2);
        assert(rest =~= Seq::empty());
        assert(frames[0] == arrivals[0].frame);
        assert(frames.drop_last() =~= Seq::empty());
    } else {
        assert(opened(frames_of(rest), id)) by {
            assert(frames_of(rest)[0] == frames[0]);
            assert forall|i: int| 1 <= i < rest.len() implies is_body_chunk(
                #[trigger] frames_of(rest)[i],
                id,
            ) by {
                assert(frames_of(rest)[i] == frames[i]);
            }
        }
        assert(all_taken(rest)) by {
            assert forall|i: int| 0 <= i < rest.len() implies (#[trigger] rest[i]).taken by {
                assert(rest[i] == arrivals[i]);
            }
        }
        lemma_opened_pours(slots, limit, rest, id, head, body);
        assert(is_body_chunk(frames[frames.len() - 1], id));
        assert(arrivals[arrivals.len() - 1].taken);
        let before = delivered(frames_of(rest));
        let bytes = delivered(frames);
        let got = poured(slots, limit, arrivals, body);
        let part = frame_bytes(last.frame);
        assert(frames.last() == last.frame);
        assert(bytes == before + part);
        if within(limit, before.len() as int) && !within(limit, bytes.len() as int) {
            assert(got =~= before);
            assert(got.is_prefix_of(bytes));
        } else if !within(limit, before.len() as int) {
            assert(got =~= poured(slots, limit, rest, body));
            assert(got.is_prefix_of(bytes)) by {
                assert(got =~= bytes.subrange(0, got.len() as int));
            }
        }
    }
}

/// What the client sends for a request, the relay hands on, however the frames of other requests
/// come between. As long as the local server streamed no more than the limit, the body of the
/// public response got just the bytes that the local server streamed, in order and each once; past
/// the limit it got a beginning of them and the request is let go. After the terminator or an
/// error the request is no more in flight.
pub proof fn law_response_arrives(
    slots: Map<Seq<char>, InFlight>,
    limit: Option<usize>,
    id: Seq<char>,
    head: u64,
    body: u64,
    steps: Seq<Step>,
    arrivals: Seq<Arrival>,
)
    requires
        follows(id, steps),
        slots.get(id) == Some(InFlight::AwaitingHead(head)),
        streams_alone(slots, id, body),
        handle_is_for(arrivals, id, body),
        frames_of(about(arrivals, id)) == sent(steps),
        all_taken(about(arrivals, id)),
        about(arrivals, id).len() > 0 ==> about(arrivals, id)[0].body == body,
    ensures
        ({
            let state = relayed(slots, limit, arrivals);
            let got = poured(slots, limit, arrivals, body);
            let fits = within(limit, streamed(steps).len() as int);
            &&& opened(sent(steps), id) && fits ==> state.get(id) == Some(
                InFlight::Streaming { body, passed: counted(limit, 0, streamed(steps).len()) },
            ) && got == streamed(steps)
            &&& complete(sent(steps), id) && fits ==> !state.contains_key(id) && got == streamed(
                steps,
            )
            &&& !fits && (opened(sent(steps), id) || complete(sent(steps), id))
                ==> !state.contains_key(id) && got.is_prefix_of(streamed(steps))
            &&& failed(sent(steps), id) ==> !state.contains_key(id) && got == Seq::<u8>::empty()
        }),
{
    let mine = about(arrivals, id);
    let frames = sent(steps);
    law_body_arrives(id, steps);
    law_requests_do_not_mix(slots, limit, arrivals, id, body);
    assert(frames.len() == mine.len());
    if opened(frames, id) {
        lemma_opened_pours(slots, limit, mine, id, head, body);
    }
    if complete(frames, id) {
        let rest = mine.drop_last();
        assert(frames.drop_last() =~= frames_of(rest));
        assert(frames[frames.len() - 1] == mine[mine.len() - 1].frame);
        assert forall|i: int| 0 <= i < rest.len() implies (#[trigger] rest[i]).taken by {
            assert(rest[i] == mine[i]);
        }
        lemma_opened_pours(slots, limit, rest, id, head, body);
        assert(delivered(frames) =~= delivered(frames.drop_last()));
        assert(poured(slots, limit, mine, body) =~= poured(slots, limit, rest, body));
    }
    if failed(frames, id) {
        reveal_with_fuel(relayed, 2);
        reveal_with_fuel(poured, 2);
        assert(frames[0] == mine[0].frame);
        assert(mine.drop_last() =~= Seq::empty());
        assert(poured(slots, limit, mine, body) =~= Seq::empty());
    }
}

/// The head that the client sends goes to whoever waits for it, with its status and headers.
pub proof fn law_head_arrives(
    slots: Map<Seq<char>, InFlight>,
    limit: Option<usize>,
    id: Seq<char>,
    head: u64,
    body: u64,
    status: u16,
    headers: Map<Seq<char>, Seq<char>>,
)
    requires
        slots.get(id) == Some(InFlight::AwaitingHead(head)),
    ensures
        dispatched(slots, limit, MessageView::ResponseHead { id, status, headers }, body).1 == (
        DispatchView::DeliverHead { head, body, status, headers }),
        dispatched(slots, limit, MessageView::ResponseHead { id, status, headers }, body).0.get(id)
            == Some(InFlight::Streaming { body, passed: 0 }),
{
}

/// An error before the head becomes a response of the relay's own with status 502.
pub proof fn law_early_error_becomes_bad_gateway(
    slots: Map<Seq<char>, InFlight>,
    limit: Option<usize>,
    id: Seq<char>,
    head: u64,
    body: u64,
    message: Seq<char>,
)
    requires
        slots.get(id) == Some(InFlight::AwaitingHead(head)),
    ensures
        dispatched(slots, limit, MessageView::ResponseError { id, message }, body) == (
            slots.remove(id),
            DispatchView::SynthesizeHead {
                head,
                status: 502,
                message: "upstream error: "@ + message,
            },
        ),
{
}

// ---------------------------------------------------------------------------
// Routing, and what goes through the tunnel
// ---------------------------------------------------------------------------

/// The host that a request is routed by is the whole value of its first `host` header, character
/// for byte, where that is text, and empty where it is not.
pub proof fn law_host_is_the_whole_value(
    before: Seq<(Seq<char>, Seq<u8>)>,
    name: Seq<char>,
    value: Seq<u8>,
    after: Seq<(Seq<char>, Seq<u8>)>,
)
    requires
        forall|i: int| 0 <= i < before.len() ==> lower((#[trigger] before[i]).0) != "host"@,
        lower(name) == "host"@,
    ensures
        ({
            let host = host_of(before + seq![(name, value)] + after);
            &&& visible(value) ==> host.len() == value.len() && (forall|k: int|
                0 <= k < value.len() ==> (#[trigger] host[k]) as int == value[k] as int)
            &&& !visible(value) ==> host.len() == 0
        }),
    decreases before.len(),
{
    let raw = before + seq![(name, value)] + after;
    if before.len() == 0 {
        assert(raw[0] == (name, value));
    } else {
        assert(raw[0] == before[0]);
        let rest = before.drop_first();
        assert forall|i: int| 0 <= i < rest.len() implies lower((#[trigger] rest[i]).0)
            != "host"@ by {
            assert(rest[i] == before[i + 1]);
        }
        assert(raw.drop_first() =~= rest + seq![(name, value)] + after);
        law_host_is_the_whole_value(rest, name, value, after);
    }
}

/// A request without a `host` header has no host.
pub proof fn law_no_host_header(raw: Seq<(Seq<char>, Seq<u8>)>)
    requires
        forall|i: int| 0 <= i < raw.len() ==> lower((#[trigger] raw[i]).0) != "host"@,
    ensures
        host_of(raw).len() == 0,
        host_label(host_of(raw)).len() == 0,
    decreases raw.len(),
{
    if raw.len() > 0 {
        let rest = raw.drop_first();
        assert forall|i: int| 0 <= i < rest.len() implies lower((#[trigger] rest[i]).0)
            != "host"@ by {
            assert(rest[i] == raw[i + 1]);
        }
        law_no_host_header(rest);
    }
    law_host_label(host_of(raw));
}

/// The label of a host is the beginning of it that has no dot and reaches to its first dot or to
/// its end.
pub proof fn law_host_label(host: Seq<char>)
    ensures
        host_label(host).is_prefix_of(host),
        !host_label(host).contains('.'),
        host_label(host).len() < host.len() ==> host[host_label(host).len() as int] == '.',
{
    lemma_first_pos(host, '.');
    let label = host_label(host);
    assert(label =~= host.subrange(0, label.len() as int));
    if label.contains('.') {
        let k = choose|k: int| 0 <= k < label.len() && label[k] == '.';
        assert(host[k] == '.');
    }
}

/// A request whose `host` header holds a subdomain, a dot and anything more is for that subdomain.
pub proof fn law_routed_by_its_subdomain(
    before: Seq<(Seq<char>, Seq<u8>)>,
    name: Seq<char>,
    value: Seq<u8>,
    after: Seq<(Seq<char>, Seq<u8>)>,
    subdomain: Seq<char>,
    rest: Seq<char>,
)
    requires
        forall|i: int| 0 <= i < before.len() ==> lower((#[trigger] before[i]).0) != "host"@,
        lower(name) == "host"@,
        visible(value),
        !subdomain.contains('.'),
        value.len() == (subdomain + "."@ + rest).len(),
        forall|k: int|
            0 <= k < value.len() ==> (#[trigger] (subdomain + "."@ + rest)[k]) as int
                == value[k] as int,
    ensures
        host_label(host_of(before + seq![(name, value)] + after)) == subdomain,
{
    law_host_is_the_whole_value(before, name, value, after);
    let host = host_of(before + seq![(name, value)] + after);
    let whole = subdomain + "."@ + rest;
    assert forall|k: int| 0 <= k < value.len() implies host[k] == whole[k] by {
        assert(host[k] as int == value[k] as int);
        assert(whole[k] as int == value[k] as int);
    }
    assert(host =~= whole);
    law_public_host_routes(subdomain, rest);
}

/// A request is answered with 400 where it names no subdomain, with 502 where nobody holds the
/// one that it names, and goes to the connection that holds it otherwise.
pub proof fn law_admission(tunnels: Map<Seq<char>, u64>, req: PublicRequest, id: Seq<char>)
    ensures
        ({
            let subdomain = host_label(host_of(req.headers.deep_view()));
            let outcome = admitted(tunnels, req, id);
            &&& subdomain.len() == 0 ==> outcome is Refuse && outcome->Refuse_subdomain == "-"@
                && outcome->reply.status == 400 && outcome->reply.message == "missing host header"@
            &&& subdomain.len() > 0 && tunnels.get(subdomain) is None ==> outcome is Refuse
                && outcome->Refuse_subdomain == subdomain && outcome->reply.status == 502
                && outcome->reply.message == "tunnel not found"@
            &&& subdomain.len() > 0 && tunnels.get(subdomain) is Some ==> outcome is Forward
                && outcome->Forward_subdomain == subdomain && Some(outcome->conn) == tunnels.get(
                subdomain,
            ) && outcome->request == tunnelled(req, id)
        }),
{
}

/// A request goes through the tunnel under its id with the method that it has, with its path and
/// query character for character, with the headers that the tunnel carries, and with its body.
pub proof fn law_request_goes_through_whole(req: PublicRequest, id: Seq<char>)
    ensures
        tunnelled(req, id).id == id,
        tunnelled(req, id).method == req.method@,
        req.path matches Some(path) ==> tunnelled(req, id).path == path@,
        req.path is None ==> tunnelled(req, id).path == "/"@,
        tunnelled(req, id).headers == carried(req.headers.deep_view()),
        req.body@.len() == 0 ==> tunnelled(req, id).body is None,
        req.body@.len() > 0 ==> tunnelled(req, id).body == Some(base64_text(req.body@)),
{
}

/// The local server is asked for the path and query that the public client asked for, behind its
/// base URL, by the same method, with the same body, and with every header that the tunnel carries
/// and that is not `host`.
pub proof fn law_local_server_is_asked_the_same(
    req: PublicRequest,
    sent_as: RequestView,
    base_url: Seq<char>,
    name: Seq<char>,
)
    requires
        arrives_whole(req, sent_as),
    ensures
        ({
            let out = upstreamed(base_url, sent_as);
            &&& base_url.is_prefix_of(out.url)
            &&& req.path matches Some(path) ==> out.url.skip(base_url.len() as int) == path@
            &&& req.path is None ==> out.url.skip(base_url.len() as int) == "/"@
            &&& is_token(req.method@) ==> out.method == req.method@
            &&& req.body@.len() == 0 ==> out.body is None
            &&& req.body@.len() > 0 ==> out.body == Some(req.body@)
            &&& ({
                let came = carried(req.headers.deep_view());
                &&& out.headers.contains_key(name) <==> came.contains_key(name) && lower(name)
                    != "host"@
                &&& out.headers.contains_key(name) ==> out.headers[name] == came[name]
            })
        }),
{
    let out = upstreamed(base_url, sent_as);
    law_carried_headers(req.headers.deep_view(), name);
    let path = request_path(opt_text(req.path));
    assert(base_url =~= out.url.subrange(0, base_url.len() as int));
    assert(out.url.skip(base_url.len() as int) =~= path);
}

/// The content of an answer and of a decision about a request is what they hold, as it stands.
pub proof fn law_admission_content(reply: PublicReply, a: Admission)
    ensures
        reply@.status == reply.status,
        reply@.message == reply.message@,
        a matches Admission::Refuse { subdomain, reply: r } ==> a@ is Refuse
            && a@->Refuse_subdomain == subdomain@ && a@->reply == r@,
        a matches Admission::Forward { subdomain, conn, request } ==> a@ is Forward
            && a@->Forward_subdomain == subdomain@ && a@->conn == conn && a@->request == request@,
{
}

// ---------------------------------------------------------------------------
// The frames that answer a request
// ---------------------------------------------------------------------------

/// A request that goes out awaits its head under its id, and no other request changes.
pub proof fn law_request_is_awaited(
    slots: Map<Seq<char>, InFlight>,
    id: Seq<char>,
    head: u64,
    other: Seq<char>,
)
    ensures
        awaiting(slots, id, head).get(id) == Some(InFlight::AwaitingHead(head)),
        other != id ==> awaiting(slots, id, head).get(other) == slots.get(other),
{
}

/// A request that was handed on stays in flight and is not answered; one that was not is let go,
/// alone, and answered with 503 where too many wait and with 502 where the client is gone.
pub proof fn law_handing_on(
    slots: Map<Seq<char>, InFlight>,
    id: Seq<char>,
    outcome: QueueOutcome,
    other: Seq<char>,
)
    ensures
        outcome is Queued ==> queue_reply(outcome) is None && after_queueing(slots, id, outcome)
            == slots,
        outcome is Full ==> queue_reply(outcome) is Some && queue_reply(outcome)->Some_0.status
            == 503 && queue_reply(outcome)->Some_0.message == "tunnel overloaded"@,
        outcome is Closed ==> queue_reply(outcome) is Some && queue_reply(outcome)->Some_0.status
            == 502 && queue_reply(outcome)->Some_0.message == "tunnel disconnected"@,
        !(outcome is Queued) ==> !after_queueing(slots, id, outcome).contains_key(id),
        other != id ==> after_queueing(slots, id, outcome).get(other) == slots.get(other),
{
}

/// A request without a head is answered with 502 where the tunnel let go of it and with 504 where
/// it took too long.
pub proof fn law_no_head_replies(why: NoHead)
    ensures
        why is Dropped ==> no_head_reply(why).status == 502 && no_head_reply(why).message
            == "tunnel dropped request"@,
        why is TimedOut ==> no_head_reply(why).status == 504 && no_head_reply(why).message
            == "tunnel headers timeout"@,
{
}

/// A request without a head is let go, alone; its client is told to cancel it exactly where it
/// took too long.
pub proof fn law_no_head_lets_go(
    slots: Map<Seq<char>, InFlight>,
    id: Seq<char>,
    why: NoHead,
    other: Seq<char>,
)
    ensures
        !after_no_head(slots, id).contains_key(id),
        other != id ==> after_no_head(slots, id).get(other) == slots.get(other),
        why is Dropped ==> no_head_cancel(id, why) is None,
        why is TimedOut ==> no_head_cancel(id, why) is Some && no_head_cancel(
            id,
            why,
        )->Some_0 is Cancel && no_head_cancel(id, why)->Some_0->Cancel_id == id,
{
}

/// What is let go when bytes were the last or were not taken is the request that they were for;
/// its client is told to cancel it exactly where they were not taken and it was in flight.
pub proof fn law_push_lets_go(
    slots: Map<Seq<char>, InFlight>,
    id: Seq<char>,
    last: bool,
    slot: InFlight,
)
    ensures
        push_releases(slots, id, false, true) is None,
        slots.get(id) == Some(slot) ==> push_releases(slots, id, true, true) == Some(slot)
            && push_releases(slots, id, last, false) == Some(slot),
        slots.get(id) is None ==> push_releases(slots, id, last, false) is None,
        push_cancel(slots, id, true) is None,
        slots.get(id) == Some(slot) ==> push_cancel(slots, id, false) is Some && push_cancel(
            slots,
            id,
            false,
        )->Some_0 is Cancel && push_cancel(slots, id, false)->Some_0->Cancel_id == id,
        slots.get(id) is None ==> push_cancel(slots, id, false) is None,
{
}

/// A chunk of a streaming response that stays within the limit, or comes where there is none,
/// hands on just the bytes that its data decodes to, to the body of its request, and is counted.
pub proof fn law_chunk_is_handed_on(
    slots: Map<Seq<char>, InFlight>,
    limit: Option<usize>,
    id: Seq<char>,
    data: Seq<char>,
    last: bool,
    stream: u64,
    passed: usize,
    body: u64,
)
    ensures
        ({
            let (after, action) = dispatched(
                slots,
                limit,
                MessageView::ResponseChunk { id, data, last },
                body,
            );
            slots.get(id) == Some(InFlight::Streaming { body: stream, passed }) && data.len() > 0
                ==> (base64_bytes(data) matches Some(bytes) ==> {
                &&& limit is None ==> action == (
                DispatchView::Push { body: stream, id, bytes, last }) && after.get(id) == slots.get(
                    id,
                )
                &&& limit matches Some(most) ==> (passed + bytes.len() <= most ==> action == (
                DispatchView::Push { body: stream, id, bytes, last }) && after.get(id) == Some(
                    InFlight::Streaming { body: stream, passed: (passed + bytes.len()) as usize },
                ))
                &&& limit matches Some(most) ==> (passed + bytes.len() > most ==> action == (
                DispatchView::FailBody {
                    body: stream,
                    message: "response body too large"@,
                    cancel: Some(MessageView::Cancel { id }),
                }) && after.get(id) is None)
            })
        }),
{
}

/// A chunk without bytes ends the body where it is the last and is passed over where it is not.
pub proof fn law_chunk_without_bytes(
    slots: Map<Seq<char>, InFlight>,
    limit: Option<usize>,
    id: Seq<char>,
    data: Seq<char>,
    stream: u64,
    passed: usize,
    body: u64,
)
    ensures
        slots.get(id) == Some(InFlight::Streaming { body: stream, passed }) && (data.len() == 0
            || base64_bytes(data) is None) ==> {
            &&& dispatched(
                slots,
                limit,
                MessageView::ResponseChunk { id, data, last: true },
                body,
            ) == (slots.remove(id), DispatchView::Release(stream))
            &&& dispatched(
                slots,
                limit,
                MessageView::ResponseChunk { id, data, last: false },
                body,
            ) == (slots, DispatchView::Ignore)
        },
{
}

/// A chunk before the head is passed over; a second head ends the body; and an error behind the
/// head breaks the body off with its message, without a cancel.
pub proof fn law_frames_out_of_order(
    slots: Map<Seq<char>, InFlight>,
    limit: Option<usize>,
    id: Seq<char>,
    m: MessageView,
    body: u64,
)
    requires
        response_id(m) == Some(id),
    ensures
        slots.get(id) matches Some(InFlight::AwaitingHead(_)) && m is ResponseChunk ==> dispatched(
            slots,
            limit,
            m,
            body,
        ) == (slots, DispatchView::Ignore),
        slots.get(id) matches Some(InFlight::Streaming { body: stream, .. }) ==> {
            &&& m is ResponseHead ==> dispatched(slots, limit, m, body) == (
                slots.remove(id),
                DispatchView::Release(stream),
            )
            &&& m is ResponseError ==> dispatched(slots, limit, m, body) == (
                slots.remove(id),
                DispatchView::FailBody { body: stream, message: m->message, cancel: None },
            )
        },
{
}

/// Bytes that were taken change nothing unless they were the last; otherwise the request is let
/// go, alone.
pub proof fn law_pushed(
    slots: Map<Seq<char>, InFlight>,
    id: Seq<char>,
    last: bool,
    taken: bool,
    other: Seq<char>,
)
    ensures
        taken && !last ==> pushed(slots, id, last, taken) == slots,
        !taken || last ==> !pushed(slots, id, last, taken).contains_key(id),
        other != id ==> pushed(slots, id, last, taken).get(other) == slots.get(other),
{
}

/// The public client gets the status that the local server answered with, whatever it is, as long
/// as it is one; 502 stands for what is none.
pub proof fn law_status_reaches_the_public(
    slots: Map<Seq<char>, InFlight>,
    limit: Option<usize>,
    id: Seq<char>,
    head: u64,
    body: u64,
    status: u16,
    headers: Vec<RawHeader>,
    frames: Seq<MessageView>,
)
    requires
        slots.get(id) == Some(InFlight::AwaitingHead(head)),
        emits(Stage::AwaitingHead, id, UpstreamEvent::Head { status, headers }, frames),
    ensures
        frames.len() == 1,
        ({
            let action = dispatched(slots, limit, frames[0], body).1;
            &&& action is DeliverHead
            &&& action->DeliverHead_head == head
            &&& action->DeliverHead_status == status
            &&& action->headers == carried(headers.deep_view())
            &&& 100 <= status <= 999 ==> public_status(action->DeliverHead_status) == status
            &&& status < 100 || status > 999 ==> public_status(action->DeliverHead_status) == 502
        }),
{
    law_head_is_passed_on(id, status, headers, frames);
}

/// The content of what the relay does about a frame is what it holds, as it stands.
pub proof fn law_dispatch_content(action: DispatchAction)
    ensures
        action is Ignore <==> action@ is Ignore,
        action matches DispatchAction::Release(body) ==> action@ == DispatchView::Release(body),
        action matches DispatchAction::DeliverHead { head, body, status, headers } ==> action@ == (
        DispatchView::DeliverHead { head, body, status, headers: headers@ }),
        action matches DispatchAction::Push { body, id, bytes, last } ==> action@ == (
        DispatchView::Push { body, id: id@, bytes: bytes@, last }),
        action matches DispatchAction::SynthesizeHead { head, status, message } ==> action@ == (
        DispatchView::SynthesizeHead { head, status, message: message@ }),
        action matches DispatchAction::FailBody { body, message, cancel } ==> action@ is FailBody
            && action@->FailBody_body == body && action@->FailBody_message == message@ && (
        cancel is None <==> action@->cancel is None) && (cancel matches Some(m) ==> action@->cancel
            == Some(m@)),
{
}

// ---------------------------------------------------------------------------
// The log
// ---------------------------------------------------------------------------

/// Statuses below 300 are green, those from 400 on red, and those between them yellow.
pub proof fn law_status_colors(status: u16)
    ensures
        color_of(status) is Green <==> status < 300,
        color_of(status) is Yellow <==> 300 <= status < 400,
        color_of(status) is Red <==> status >= 400,
{
}

/// A line of the log holds the time, the subdomain, the method, the path, the status and the
/// duration, each whole and at its place behind the ones before it.
#[verifier::spinoff_prover]
#[verifier::rlimit(40)]
pub proof fn law_log_line(
    now: Seq<char>,
    subdomain: Seq<char>,
    method: Seq<char>,
    path: Seq<char>,
    status: Seq<char>,
    millis: nat,
)
    ensures
        ({
            let line = log_line(now, subdomain, method, path, status, millis);
            let a = 2int;
            let b = a + now.len() + 2;
            let c = b + subdomain.len() + 2;
            let d = c + method.len() + 1;
            let e = d + path.len() + 5;
            let f = e + status.len() + 2;
            &&& line.subrange(a, a + now.len()) == now
            &&& line.subrange(b, b + subdomain.len()) == subdomain
            &&& line.subrange(c, c + method.len()) == method
            &&& line.subrange(d, d + path.len()) == path
            &&& line.subrange(e, e + status.len()) == status
            &&& line.subrange(f, line.len() - 2) == decimal(millis)
            &&& line.take(a) == "  "@
            &&& line.subrange(a + now.len(), b) == "  "@
            &&& line.subrange(b + subdomain.len(), c) == "  "@
            &&& line.subrange(c + method.len(), d) == " "@
            &&& line.subrange(d + path.len(), e) == "  -> "@
            &&& line.subrange(e + status.len(), f) == "  "@
            &&& line.skip(line.len() - 2) == "ms"@
        }),
{
    reveal_strlit("  ");
    reveal_strlit(" ");
    reveal_strlit("  -> ");
    reveal_strlit("ms");
    let line = log_line(now, subdomain, method, path, status, millis);
    let a = 2int;
    let b = a + now.len() + 2;
    let c = b + subdomain.len() + 2;
    let d = c + method.len() + 1;
    let e = d + path.len() + 5;
    let f = e + status.len() + 2;
    assert(line.len() == f + decimal(millis).len() + 2);
    assert(line.subrange(a, a + now.len()) =~= now);
    assert(line.subrange(b, b + subdomain.len()) =~= subdomain);
    assert(line.subrange(c, c + method.len()) =~= method);
    assert(line.subrange(d, d + path.len()) =~= path);
    assert(line.subrange(e, e + status.len()) =~= status);
    assert(line.subrange(f, line.len() - 2) =~= decimal(millis));
    assert(line.take(a) =~= "  "@);
    assert(line.subrange(a + now.len(), b) =~= "  "@);
    assert(line.subrange(b + subdomain.len(), c) =~= "  "@);
    assert(line.subrange(c + method.len(), d) =~= " "@);
    assert(line.subrange(d + path.len(), e) =~= "  -> "@);
    assert(line.subrange(e + status.len(), f) =~= "  "@);
    assert(line.skip(line.len() - 2) =~= "ms"@);
}

/// The content of a frame that may be missing is the frame's, where it is there.
pub proof fn law_optional_frame(m: TunnelMessage)
    ensures
        opt_message(None) is None,
        opt_message(Some(m)) == Some(m@),
{
}

} // verus!
