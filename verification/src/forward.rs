//! Forwarding one request to the local server and streaming its response back.

use crate::headers::{carried, carry_headers, for_upstream, upstream_headers, RawHeader};
use crate::outside::{
    base64_bytes, base64_text, carries, decode_base64, encode_base64, http_method, is_token,
};
use crate::protocol::{hop_by_hop, MessageView, RequestView, TunnelMessage, TunnelRequest};
use crate::string_map::StringMap;
use crate::text::{decimal, law_decimal_reads_back, lower, parsed_number, push_decimal};
use vstd::prelude::*;
use vstd::string::*;

verus! {

/// Seconds to wait for the response head of the local server. The body can stream as long as the
/// server keeps it open.
pub const HEADERS_TIMEOUT_SECS: u64 = 30;

/// Bytes per response chunk frame.
pub const CHUNK_SIZE: usize = 64 * 1024;

// ---------------------------------------------------------------------------
// The request as the local server gets it
// ---------------------------------------------------------------------------

/// The base URL of the local server.
pub open spec fn local_url(port: u16) -> Seq<char> {
    "http://localhost:"@ + decimal(port as nat)
}

/// The base URL of the local server.
pub fn local_base(port: u16) -> (url: String)
    ensures
        url@ == local_url(port),
        url@ == "http://localhost:"@ + decimal(port as nat),
{
    let mut url: String = "http://localhost:".to_string();
    push_decimal(&mut url, port as u128);
    url
}

/// A request for the local server.
pub struct UpstreamRequest {
    pub method: String,
    pub url: String,
    pub headers: StringMap<String>,
    pub body: Option<Vec<u8>>,
}

/// The bytes of a body that may be missing.
pub open spec fn opt_bytes(body: Option<Vec<u8>>) -> Option<Seq<u8>> {
    match body {
        Some(bytes) => Some(bytes@),
        None => None,
    }
}

/// The body that a frame's base64 field holds: none where the field is missing or malformed.
pub open spec fn decoded_body(body: Option<Seq<char>>) -> Option<Seq<u8>> {
    match body {
        Some(text) => base64_bytes(text),
        None => None,
    }
}

/// The content of an [`UpstreamRequest`].
pub struct UpstreamView {
    pub method: Seq<char>,
    pub url: Seq<char>,
    pub headers: Map<Seq<char>, Seq<char>>,
    pub body: Option<Seq<u8>>,
}

impl View for UpstreamRequest {
    type V = UpstreamView;

    open spec fn view(&self) -> UpstreamView {
        UpstreamView {
            method: self.method@,
            url: self.url@,
            headers: self.headers@,
            body: opt_bytes(self.body),
        }
    }
}

/// The request that goes to the local server: the method, or `GET` where it is none, the path
/// behind the base URL, the headers without `host` and the hop-by-hop ones, the decoded body.
pub open spec fn upstreamed(base_url: Seq<char>, req: RequestView) -> UpstreamView {
    UpstreamView {
        method: if is_token(req.method) {
            req.method
        } else {
            "GET"@
        },
        url: base_url + req.path,
        headers: for_upstream(req.headers),
        body: decoded_body(req.body),
    }
}

/// The request that goes to the local server.
pub fn upstream_request(base_url: &str, req: &TunnelRequest) -> (out: UpstreamRequest)
    ensures
        out@ == upstreamed(base_url@, req@),
{
    let method: String = match http_method(&req.method) {
        Some(method) => method,
        None => "GET".to_string(),
    };
    let mut url: String = base_url.to_string();
    url.append(&req.path);
    let headers = upstream_headers(&req.headers);
    let body: Option<Vec<u8>> = match &req.body {
        Some(text) => decode_base64(text),
        None => None,
    };
    UpstreamRequest { method, url, headers, body }
}

// ---------------------------------------------------------------------------
// Frames on their way to the relay
// ---------------------------------------------------------------------------

/// The frames that wait for the socket, in order. Once the socket is gone, nothing more is taken.
pub struct FrameQueue {
    pub frames: Vec<TunnelMessage>,
    pub open: bool,
}

impl FrameQueue {
    /// An empty queue before a socket that is there.
    pub fn new() -> (q: FrameQueue)
        ensures
            q.open,
            q.frames.deep_view() == Seq::<MessageView>::empty(),
    {
        let q = FrameQueue { frames: Vec::new(), open: true };
        assert(q.frames.deep_view() =~= Seq::empty());
        q
    }

    /// The socket is gone.
    pub fn close(&mut self)
        ensures
            !final(self).open,
            final(self).frames == old(self).frames,
    {
        self.open = false;
    }
}

/// The frames that wait after one more came.
pub open spec fn queued(frames: Seq<MessageView>, open: bool, m: MessageView) -> Seq<MessageView> {
    if open {
        frames.push(m)
    } else {
        frames
    }
}

/// Queues one frame. Returns `false`, and queues nothing, if the socket is gone.
pub fn send_msg(tx: &mut FrameQueue, msg: TunnelMessage) -> (sent: bool)
    ensures
        sent == old(tx).open,
        final(tx).open == old(tx).open,
        final(tx).frames.deep_view() == (if old(tx).open {
            old(tx).frames.deep_view().push(msg@)
        } else {
            old(tx).frames.deep_view()
        }),
        final(tx).frames.deep_view() == queued(old(tx).frames.deep_view(), old(tx).open, msg@),
{
    if tx.open {
        tx.frames.push(msg);
        assert(tx.frames.deep_view() =~= old(tx).frames.deep_view().push(msg@));
        true
    } else {
        false
    }
}

/// The number of chunk frames that `len` bytes take: one for every 65536 bytes begun.
pub open spec fn chunk_count(len: nat) -> nat {
    (len + 65535) / 65536
}

/// Where the chunk behind the first `i` begins.
pub open spec fn chunk_start(bytes: Seq<u8>, i: int) -> int {
    if i * 65536 <= bytes.len() {
        i * 65536
    } else {
        bytes.len() as int
    }
}

/// The bytes of chunk `i`: [`CHUNK_SIZE`] of them, fewer in the last.
pub open spec fn chunk_of(bytes: Seq<u8>, i: int) -> Seq<u8> {
    bytes.subrange(chunk_start(bytes, i), chunk_start(bytes, i + 1))
}

/// `frames` is `bytes` cut into chunk frames for `id`, none of them the last.
pub open spec fn is_chunking(frames: Seq<MessageView>, id: Seq<char>, bytes: Seq<u8>) -> bool {
    &&& frames.len() == chunk_count(bytes.len())
    &&& forall|i: int|
        0 <= i < frames.len() ==> {
            &&& #[trigger] frames[i] == (MessageView::ResponseChunk {
                id,
                data: base64_text(chunk_of(bytes, i)),
                last: false,
            })
            &&& carries(base64_text(chunk_of(bytes, i)), chunk_of(bytes, i))
        }
}

/// Cuts `bytes` into chunk frames of at most [`CHUNK_SIZE`] bytes and queues them. Returns `false`
/// if there is something to send and the socket is gone.
pub fn send_chunks(tx: &mut FrameQueue, id: &str, bytes: &[u8]) -> (sent: bool)
    ensures
        sent == (old(tx).open || bytes@.len() == 0),
        final(tx).open == old(tx).open,
        !old(tx).open ==> final(tx).frames.deep_view() == old(tx).frames.deep_view(),
        old(tx).open ==> {
            &&& old(tx).frames.deep_view().is_prefix_of(final(tx).frames.deep_view())
            &&& is_chunking(
                final(tx).frames.deep_view().skip(old(tx).frames@.len() as int),
                id@,
                bytes@,
            )
        },
{
    let ghost before = tx.frames.deep_view();
    let mut offset: usize = 0;
    let mut count: usize = 0;
    while offset < bytes.len()
        invariant
            offset == chunk_start(bytes@, count as int),
            offset <= bytes@.len(),
            count * 65536 < bytes@.len() + 65536,
            tx.open == old(tx).open,
            before == old(tx).frames.deep_view(),
            count > 0 ==> tx.open,
            !tx.open ==> tx.frames.deep_view() == before,
            tx.frames@.len() == before.len() + count,
            before.is_prefix_of(tx.frames.deep_view()),
            forall|i: int|
                0 <= i < count ==> {
                    &&& #[trigger] tx.frames.deep_view().skip(before.len() as int)[i] == (
                    MessageView::ResponseChunk {
                        id: id@,
                        data: base64_text(chunk_of(bytes@, i)),
                        last: false,
                    })
                    &&& carries(base64_text(chunk_of(bytes@, i)), chunk_of(bytes@, i))
                },
        decreases bytes@.len() - offset,
    {
        let end: usize = if bytes.len() - offset > CHUNK_SIZE {
            offset + CHUNK_SIZE
        } else {
            bytes.len()
        };
        assert(end == chunk_start(bytes@, count + 1));
        let part = vstd::slice::slice_subrange(bytes, offset, end);
        assert(part@ == chunk_of(bytes@, count as int));
        let data = encode_base64(part);
        let ghost frames = tx.frames.deep_view();
        let msg = TunnelMessage::ResponseChunk { id: id.to_string(), data, last: false };
        if !send_msg(tx, msg) {
            return false;
        }
        assert forall|i: int| 0 <= i < count + 1 implies {
            &&& #[trigger] tx.frames.deep_view().skip(before.len() as int)[i] == (
            MessageView::ResponseChunk {
                id: id@,
                data: base64_text(chunk_of(bytes@, i)),
                last: false,
            })
            &&& carries(base64_text(chunk_of(bytes@, i)), chunk_of(bytes@, i))
        } by {
            if i < count {
                assert(tx.frames.deep_view().skip(before.len() as int)[i] == frames.skip(
                    before.len() as int,
                )[i]);
            }
        }
        offset = end;
        count = count + 1;
    }
    assert(chunk_count(bytes@.len()) == count);
    true
}

// ---------------------------------------------------------------------------
// One request, from the upstream's events to frames
// ---------------------------------------------------------------------------

/// How far the response to one request has come.
#[derive(Clone, Copy, PartialEq, Eq, Structural)]
pub enum Stage {
    /// The local server has not answered yet.
    AwaitingHead,
    /// The head was sent; the body streams.
    Streaming,
    /// Nothing more will be sent.
    Done,
}

/// What happens on the side of the local server.
pub enum UpstreamEvent {
    /// The request could not be sent; the text says why.
    SendFailed(String),
    /// No head came in time.
    HeadersTimeout,
    /// The response head.
    Head { status: u16, headers: Vec<RawHeader> },
    /// Bytes of the body.
    Chunk(Vec<u8>),
    /// The body broke off.
    StreamFailed,
    /// The body is complete.
    StreamEnded,
    /// The relay cancelled the request.
    Cancelled,
}

/// The stage behind an event, where `open` says whether the socket is there.
pub open spec fn stage_after(stage: Stage, ev: UpstreamEvent, open: bool) -> Stage {
    match (stage, ev) {
        (Stage::Done, _) => Stage::Done,
        (_, UpstreamEvent::Cancelled) => Stage::Done,
        (Stage::AwaitingHead, UpstreamEvent::SendFailed(_)) => Stage::Done,
        (Stage::AwaitingHead, UpstreamEvent::HeadersTimeout) => Stage::Done,
        (Stage::AwaitingHead, UpstreamEvent::Head { .. }) => if open {
            Stage::Streaming
        } else {
            Stage::Done
        },
        (Stage::Streaming, UpstreamEvent::Chunk(bytes)) => if open || bytes@.len() == 0 {
            Stage::Streaming
        } else {
            Stage::Done
        },
        (Stage::Streaming, UpstreamEvent::StreamFailed) => Stage::Done,
        (Stage::Streaming, UpstreamEvent::StreamEnded) => Stage::Done,
        _ => stage,
    }
}

/// The terminator of a response.
pub open spec fn terminator(id: Seq<char>) -> MessageView {
    MessageView::ResponseChunk { id, data: Seq::empty(), last: true }
}

/// `frames` is what an event of a request makes the client send while the socket is there.
pub open spec fn emits(
    stage: Stage,
    id: Seq<char>,
    ev: UpstreamEvent,
    frames: Seq<MessageView>,
) -> bool {
    match (stage, ev) {
        (Stage::AwaitingHead, UpstreamEvent::SendFailed(why)) => frames == seq![
            MessageView::ResponseError { id, message: "upstream error: "@ + why@ },
        ],
        (Stage::AwaitingHead, UpstreamEvent::HeadersTimeout) => frames == seq![
            MessageView::ResponseError { id, message: "upstream headers timeout"@ },
        ],
        (Stage::AwaitingHead, UpstreamEvent::Head { status, headers }) => frames == seq![
            MessageView::ResponseHead { id, status, headers: carried(headers.deep_view()) },
        ],
        (Stage::Streaming, UpstreamEvent::Chunk(bytes)) => is_chunking(frames, id, bytes@),
        (Stage::Streaming, UpstreamEvent::StreamFailed) => frames == seq![terminator(id)],
        (Stage::Streaming, UpstreamEvent::StreamEnded) => frames == seq![terminator(id)],
        _ => frames == Seq::<MessageView>::empty(),
    }
}

/// One request that is being forwarded.
pub struct Forwarding {
    pub id: String,
    pub stage: Stage,
}

/// The content of a [`Forwarding`].
pub struct ForwardingView {
    pub id: Seq<char>,
    pub stage: Stage,
}

impl View for Forwarding {
    type V = ForwardingView;

    open spec fn view(&self) -> ForwardingView {
        ForwardingView { id: self.id@, stage: self.stage }
    }
}

/// How the forwarding of a request begins.
pub open spec fn started(req: RequestView) -> ForwardingView {
    ForwardingView { id: req.id, stage: Stage::AwaitingHead }
}

impl Forwarding {
    /// A request on its way to the local server.
    pub fn start(req: &TunnelRequest) -> (f: Forwarding)
        ensures
            f.id@ == req.id@,
            f.stage == Stage::AwaitingHead,
            f@ == started(req@),
    {
        Forwarding { id: req.id.clone(), stage: Stage::AwaitingHead }
    }

    /// Takes one event of the local server and queues the frames that it calls for: the head, the
    /// chunks and a terminator, or a single error before the head. After a cancel nothing more is
    /// queued, not even the terminator. Returns whether more events are wanted.
    pub fn on_upstream(&mut self, tx: &mut FrameQueue, ev: UpstreamEvent) -> (more: bool)
        ensures
            final(self).id@ == old(self).id@,
            final(self).stage == stage_after(old(self).stage, ev, old(tx).open),
            more == (final(self).stage != Stage::Done),
            final(tx).open == old(tx).open,
            !old(tx).open ==> final(tx).frames.deep_view() == old(tx).frames.deep_view(),
            old(tx).open ==> {
                &&& old(tx).frames.deep_view().is_prefix_of(final(tx).frames.deep_view())
                &&& emits(
                    old(self).stage,
                    old(self).id@,
                    ev,
                    final(tx).frames.deep_view().skip(old(tx).frames@.len() as int),
                )
            },
    {
        let ghost before = tx.frames.deep_view();
        let n = tx.frames.len();
        match (self.stage, ev) {
            (Stage::AwaitingHead, UpstreamEvent::SendFailed(why)) => {
                let mut message: String = "upstream error: ".to_string();
                message.append(&why);
                let _ = send_msg(tx, TunnelMessage::ResponseError { id: self.id.clone(), message });
                self.stage = Stage::Done;
            },
            (Stage::AwaitingHead, UpstreamEvent::HeadersTimeout) => {
                let message: String = "upstream headers timeout".to_string();
                let _ = send_msg(tx, TunnelMessage::ResponseError { id: self.id.clone(), message });
                self.stage = Stage::Done;
            },
            (Stage::AwaitingHead, UpstreamEvent::Head { status, headers }) => {
                let kept = carry_headers(&headers);
                let msg = TunnelMessage::ResponseHead {
                    id: self.id.clone(),
                    status,
                    headers: kept,
                };
                if send_msg(tx, msg) {
                    self.stage = Stage::Streaming;
                } else {
                    self.stage = Stage::Done;
                }
            },
            (Stage::Streaming, UpstreamEvent::Chunk(bytes)) => {
                if !send_chunks(tx, &self.id, &bytes) {
                    self.stage = Stage::Done;
                }
            },
            (Stage::Streaming, UpstreamEvent::StreamFailed) | (
                Stage::Streaming,
                UpstreamEvent::StreamEnded,
            ) => {
                let msg = TunnelMessage::ResponseChunk {
                    id: self.id.clone(),
                    data: String::new(),
                    last: true,
                };
                let _ = send_msg(tx, msg);
                self.stage = Stage::Done;
            },
            (_, UpstreamEvent::Cancelled) => {
                self.stage = Stage::Done;
            },
            _ => {},
        }
        proof {
            let after = tx.frames.deep_view();
            if after.len() == before.len() {
                assert(after.skip(n as int) =~= Seq::empty());
            } else if after.len() == before.len() + 1 {
                assert(after.skip(n as int) =~= seq![after.last()]);
            }
        }
        match self.stage {
            Stage::Done => false,
            _ => true,
        }
    }
}

// ---------------------------------------------------------------------------
// Laws
// ---------------------------------------------------------------------------

/// The body bytes that a frame delivers: none where it is no chunk, or a chunk without data.
pub open spec fn frame_bytes(m: MessageView) -> Seq<u8> {
    match m {
        MessageView::ResponseChunk { data, .. } => if data.len() > 0 {
            match base64_bytes(data) {
                Some(bytes) => bytes,
                None => Seq::empty(),
            }
        } else {
            Seq::empty()
        },
        _ => Seq::empty(),
    }
}

/// The body bytes that a run of frames delivers.
pub open spec fn delivered(frames: Seq<MessageView>) -> Seq<u8>
    decreases frames.len(),
{
    if frames.len() == 0 {
        Seq::empty()
    } else {
        delivered(frames.drop_last()) + frame_bytes(frames.last())
    }
}

proof fn lemma_delivered_concat(a: Seq<MessageView>, b: Seq<MessageView>)
    ensures
        delivered(a + b) == delivered(a) + delivered(b),
    decreases b.len(),
{
    if b.len() == 0 {
        assert(a + b =~= a);
        assert(delivered(a) + delivered(b) =~= delivered(a));
    } else {
        assert((a + b).drop_last() =~= a + b.drop_last());
        lemma_delivered_concat(a, b.drop_last());
        assert(delivered(a + b) =~= delivered(a) + delivered(b));
    }
}

/// Every chunk has at least one byte and at most [`CHUNK_SIZE`].
pub proof fn law_chunk_sizes(bytes: Seq<u8>, i: int)
    requires
        0 <= i < chunk_count(bytes.len()),
    ensures
        0 < chunk_of(bytes, i).len() <= CHUNK_SIZE,
        i + 1 < chunk_count(bytes.len()) ==> chunk_of(bytes, i).len() == CHUNK_SIZE,
{
}

/// What a run of bytes is cut into delivers exactly those bytes, in order.
pub proof fn law_chunks_give_bytes_back(frames: Seq<MessageView>, id: Seq<char>, bytes: Seq<u8>)
    requires
        is_chunking(frames, id, bytes),
    ensures
        delivered(frames) == bytes,
{
    lemma_chunks_delivered(frames, id, bytes, frames.len() as int);
    assert(frames.take(frames.len() as int) =~= frames);
    assert(bytes.take(chunk_start(bytes, frames.len() as int)) =~= bytes);
}

proof fn lemma_chunks_delivered(frames: Seq<MessageView>, id: Seq<char>, bytes: Seq<u8>, n: int)
    requires
        is_chunking(frames, id, bytes),
        0 <= n <= frames.len(),
    ensures
        delivered(frames.take(n)) == bytes.take(chunk_start(bytes, n)),
    decreases n,
{
    if n == 0 {
        assert(frames.take(0) =~= Seq::empty());
        assert(bytes.take(0) =~= Seq::empty());
    } else {
        lemma_chunks_delivered(frames, id, bytes, n - 1);
        law_chunk_sizes(bytes, n - 1);
        assert(frames.take(n).drop_last() =~= frames.take(n - 1));
        let part = chunk_of(bytes, n - 1);
        assert(frames[n - 1] == (MessageView::ResponseChunk {
            id,
            data: base64_text(part),
            last: false,
        }));
        assert(frame_bytes(frames[n - 1]) == part);
        assert(bytes.take(chunk_start(bytes, n)) =~= bytes.take(chunk_start(bytes, n - 1)) + part);
    }
}

/// One event of the local server and the frames that it made the client send.
pub struct Step {
    pub ev: UpstreamEvent,
    pub frames: Seq<MessageView>,
}

/// The stage of a request after some steps.
pub open spec fn stage_at(steps: Seq<Step>) -> Stage
    decreases steps.len(),
{
    if steps.len() == 0 {
        Stage::AwaitingHead
    } else {
        stage_after(stage_at(steps.drop_last()), steps.last().ev, true)
    }
}

/// Each step sent what its event calls for.
pub open spec fn follows(id: Seq<char>, steps: Seq<Step>) -> bool
    decreases steps.len(),
{
    steps.len() == 0 || (follows(id, steps.drop_last()) && emits(
        stage_at(steps.drop_last()),
        id,
        steps.last().ev,
        steps.last().frames,
    ))
}

/// All frames of some steps, in order.
pub open spec fn sent(steps: Seq<Step>) -> Seq<MessageView>
    decreases steps.len(),
{
    if steps.len() == 0 {
        Seq::empty()
    } else {
        sent(steps.drop_last()) + steps.last().frames
    }
}

/// The body that the local server streamed behind its head.
pub open spec fn streamed(steps: Seq<Step>) -> Seq<u8>
    decreases steps.len(),
{
    if steps.len() == 0 {
        Seq::empty()
    } else {
        match (stage_at(steps.drop_last()), steps.last().ev) {
            (Stage::Streaming, UpstreamEvent::Chunk(bytes)) => streamed(steps.drop_last()) + bytes@,
            _ => streamed(steps.drop_last()),
        }
    }
}

/// Whether a frame is a chunk of the body of `id`, not the last.
pub open spec fn is_body_chunk(m: MessageView, id: Seq<char>) -> bool {
    m matches MessageView::ResponseChunk { id: of, last, .. } && of == id && !last
}

/// A head for `id` and then chunks of its body.
pub open spec fn opened(frames: Seq<MessageView>, id: Seq<char>) -> bool {
    &&& frames.len() > 0
    &&& frames[0] matches MessageView::ResponseHead { id: of, .. } && of == id
    &&& forall|i: int| 1 <= i < frames.len() ==> is_body_chunk(#[trigger] frames[i], id)
}

/// A head for `id`, chunks of its body, and the terminator.
pub open spec fn complete(frames: Seq<MessageView>, id: Seq<char>) -> bool {
    &&& frames.len() > 1
    &&& opened(frames.drop_last(), id)
    &&& frames.last() == terminator(id)
}

/// A single error for `id`.
pub open spec fn failed(frames: Seq<MessageView>, id: Seq<char>) -> bool {
    &&& frames.len() == 1
    &&& frames[0] matches MessageView::ResponseError { id: of, .. } && of == id
}

/// Per request id the client sends a head, then chunks, then one terminator; or a single error;
/// or it stops short of the end because the relay cancelled.
pub proof fn law_lifecycle(id: Seq<char>, steps: Seq<Step>)
    requires
        follows(id, steps),
    ensures
        stage_at(steps) == Stage::AwaitingHead ==> sent(steps) == Seq::<MessageView>::empty(),
        stage_at(steps) == Stage::Streaming ==> opened(sent(steps), id),
        stage_at(steps) == Stage::Done ==> {
            ||| sent(steps) == Seq::<MessageView>::empty()
            ||| failed(sent(steps), id)
            ||| opened(sent(steps), id)
            ||| complete(sent(steps), id)
        },
    decreases steps.len(),
{
    if steps.len() > 0 {
        let rest = steps.drop_last();
        let last = steps.last();
        law_lifecycle(id, rest);
        let before = sent(rest);
        let after = sent(steps);
        match (stage_at(rest), last.ev) {
            (Stage::AwaitingHead, UpstreamEvent::Head { .. }) => {
                assert(after =~= last.frames);
            },
            (Stage::AwaitingHead, UpstreamEvent::SendFailed(_)) => {
                assert(after =~= last.frames);
            },
            (Stage::AwaitingHead, UpstreamEvent::HeadersTimeout) => {
                assert(after =~= last.frames);
            },
            (Stage::Streaming, UpstreamEvent::Chunk(_)) => {
                assert forall|i: int| 1 <= i < after.len() implies is_body_chunk(
                    #[trigger] after[i],
                    id,
                ) by {
                    if i >= before.len() {
                        assert(after[i] == last.frames[i - before.len()]);
                    } else {
                        assert(after[i] == before[i]);
                    }
                }
            },
            (Stage::Streaming, UpstreamEvent::StreamFailed) => {
                assert(after.drop_last() =~= before);
            },
            (Stage::Streaming, UpstreamEvent::StreamEnded) => {
                assert(after.drop_last() =~= before);
            },
            _ => {
                assert(after =~= before);
            },
        }
    }
}

/// Where the body of the local server ended or broke off, the client sent a complete response.
pub proof fn law_ended_response_is_complete(id: Seq<char>, steps: Seq<Step>)
    requires
        follows(id, steps),
        steps.len() > 0,
        stage_at(steps.drop_last()) == Stage::Streaming,
        steps.last().ev is StreamEnded || steps.last().ev is StreamFailed,
    ensures
        complete(sent(steps), id),
{
    law_lifecycle(id, steps.drop_last());
    assert(sent(steps).drop_last() =~= sent(steps.drop_last()));
}

/// Once a request is done, whatever the local server does, nothing more is sent for it.
pub proof fn law_done_is_silent(id: Seq<char>, steps: Seq<Step>, n: int)
    requires
        follows(id, steps),
        0 <= n <= steps.len(),
        stage_at(steps.take(n)) == Stage::Done,
    ensures
        stage_at(steps) == Stage::Done,
        sent(steps) == sent(steps.take(n)),
    decreases steps.len() - n,
{
    if n == steps.len() {
        assert(steps.take(n) =~= steps);
    } else {
        let rest = steps.drop_last();
        assert(rest.take(n) =~= steps.take(n));
        law_done_is_silent(id, rest, n);
        assert(sent(steps) =~= sent(rest));
    }
}

/// After a cancel nothing more is sent for the request, not even the terminator.
pub proof fn law_cancel_is_silent(id: Seq<char>, steps: Seq<Step>, n: int)
    requires
        follows(id, steps),
        0 <= n < steps.len(),
        steps[n].ev is Cancelled,
    ensures
        sent(steps) == sent(steps.take(n)),
{
    let upto = steps.take(n + 1);
    assert(upto.drop_last() =~= steps.take(n));
    assert(upto.last() == steps[n]);
    lemma_follows_take(id, steps, n + 1);
    law_done_is_silent(id, steps, n + 1);
    assert(sent(upto) =~= sent(steps.take(n)));
}

proof fn lemma_follows_take(id: Seq<char>, steps: Seq<Step>, n: int)
    requires
        follows(id, steps),
        0 <= n <= steps.len(),
    ensures
        follows(id, steps.take(n)),
    decreases steps.len() - n,
{
    if n == steps.len() {
        assert(steps.take(n) =~= steps);
    } else {
        lemma_follows_take(id, steps, n + 1);
        assert(steps.take(n + 1).drop_last() =~= steps.take(n));
    }
}

/// The frames of a request deliver the body that the local server streamed, byte for byte.
pub proof fn law_body_arrives(id: Seq<char>, steps: Seq<Step>)
    requires
        follows(id, steps),
    ensures
        delivered(sent(steps)) == streamed(steps),
    decreases steps.len(),
{
    if steps.len() > 0 {
        let rest = steps.drop_last();
        let last = steps.last();
        law_body_arrives(id, rest);
        lemma_delivered_concat(sent(rest), last.frames);
        match (stage_at(rest), last.ev) {
            (Stage::Streaming, UpstreamEvent::Chunk(bytes)) => {
                law_chunks_give_bytes_back(last.frames, id, bytes@);
            },
            _ => {
                assert(delivered(last.frames) =~= Seq::empty()) by {
                    reveal_with_fuel(delivered, 2);
                    if last.frames.len() == 1 {
                        assert(last.frames.drop_last() =~= Seq::empty());
                    }
                }
                assert(delivered(sent(rest)) + delivered(last.frames) =~= delivered(sent(rest)));
            },
        }
    }
}

// ---------------------------------------------------------------------------
// What is handed on, and that it is handed on as it came
// ---------------------------------------------------------------------------

/// The local server is at its port: what follows the host in its URL reads as the port.
pub proof fn law_local_url(port: u16)
    ensures
        "http://localhost:"@.is_prefix_of(local_url(port)),
        parsed_number(local_url(port).skip("http://localhost:"@.len() as int), 65535) == Some(
            port as nat,
        ),
{
    let host = "http://localhost:"@;
    let url = local_url(port);
    assert(host =~= url.subrange(0, host.len() as int));
    assert(url.skip(host.len() as int) =~= decimal(port as nat));
    law_decimal_reads_back(port as nat, 65535);
}

/// The local server gets the request as the tunnel brought it: the path whole behind the base URL,
/// the method where it is one, the decoded body, and every header that may pass.
pub proof fn law_upstream_request(
    base_url: Seq<char>,
    req: RequestView,
    name: Seq<char>,
    bytes: Seq<u8>,
)
    ensures
        ({
            let out = upstreamed(base_url, req);
            &&& base_url.is_prefix_of(out.url)
            &&& out.url.skip(base_url.len() as int) == req.path
            &&& is_token(req.method) ==> out.method == req.method
            &&& !is_token(req.method) ==> out.method == "GET"@
            &&& req.body is None ==> out.body is None
            &&& req.body matches Some(text) ==> (out.body == Some(bytes) <==> base64_bytes(text)
                == Some(bytes))
            &&& out.headers.contains_key(name) <==> req.headers.contains_key(name) && !hop_by_hop(
                name,
            ) && lower(name) != "host"@
            &&& out.headers.contains_key(name) ==> out.headers[name] == req.headers[name]
        }),
{
    let out = upstreamed(base_url, req);
    assert(base_url =~= out.url.subrange(0, base_url.len() as int));
    assert(out.url.skip(base_url.len() as int) =~= req.path);
}

/// The content of a request for the local server is what it holds, as it stands.
pub proof fn law_upstream_content(req: UpstreamRequest)
    ensures
        req@.method == req.method@,
        req@.url == req.url@,
        req@.headers == req.headers@,
        req.body is None <==> req@.body is None,
        req.body matches Some(bytes) ==> req@.body == Some(bytes@),
{
}

/// A socket that is there gets every frame, behind those that wait; one that is gone gets none.
pub proof fn law_queue_takes_every_frame(frames: Seq<MessageView>, m: MessageView)
    ensures
        queued(frames, true, m).len() == frames.len() + 1,
        queued(frames, true, m).last() == m,
        queued(frames, true, m).drop_last() == frames,
        queued(frames, false, m) == frames,
{
    assert(frames.push(m).drop_last() =~= frames);
}

/// As many chunks are cut as the bytes need, and no more.
pub proof fn law_chunk_count(len: nat)
    ensures
        chunk_count(len) * 65536 >= len,
        len > 0 ==> (chunk_count(len) - 1) * 65536 < len,
        len == 0 ==> chunk_count(len) == 0,
{
}

/// A frame delivers what its data decodes to, and one that is no chunk or has no data nothing.
pub proof fn law_frame_bytes(id: Seq<char>, data: Seq<char>, last: bool, m: MessageView)
    ensures
        data.len() > 0 ==> (base64_bytes(data) matches Some(bytes) ==> frame_bytes(
            MessageView::ResponseChunk { id, data, last },
        ) == bytes),
        data.len() == 0 || base64_bytes(data) is None ==> frame_bytes(
            MessageView::ResponseChunk { id, data, last },
        ).len() == 0,
        !(m is ResponseChunk) ==> frame_bytes(m).len() == 0,
        delivered(Seq::empty()).len() == 0,
{
}

/// What some frames deliver, and then one more frame, is delivered in that order.
pub proof fn law_delivered(frames: Seq<MessageView>, m: MessageView)
    ensures
        delivered(frames.push(m)) == delivered(frames) + frame_bytes(m),
{
    assert(frames.push(m).drop_last() =~= frames);
}

/// Each frame that bytes are cut into is a chunk for the same request, not its last, with at least
/// one byte and at most 65536; all but the last of them have just as many.
pub proof fn law_chunk_frames(frames: Seq<MessageView>, id: Seq<char>, bytes: Seq<u8>, i: int)
    requires
        is_chunking(frames, id, bytes),
        0 <= i < frames.len(),
    ensures
        frames[i] is ResponseChunk,
        frames[i]->ResponseChunk_id == id,
        !frames[i]->last,
        0 < frame_bytes(frames[i]).len() <= 65536,
        i + 1 < frames.len() ==> frame_bytes(frames[i]).len() == 65536,
{
    law_chunk_sizes(bytes, i);
    assert(frames[i] == (MessageView::ResponseChunk {
        id,
        data: base64_text(chunk_of(bytes, i)),
        last: false,
    }));
}

/// Whatever the local server answers with, the one frame that its head makes the client send is a
/// head for the same request, with the same status and with the headers that the tunnel carries.
pub proof fn law_head_is_passed_on(
    id: Seq<char>,
    status: u16,
    headers: Vec<RawHeader>,
    frames: Seq<MessageView>,
)
    requires
        emits(Stage::AwaitingHead, id, UpstreamEvent::Head { status, headers }, frames),
    ensures
        frames.len() == 1,
        frames[0] is ResponseHead,
        frames[0]->ResponseHead_id == id,
        frames[0]->status == status,
        frames[0]->headers == carried(headers.deep_view()),
{
}

/// Whatever bytes the local server streams behind its head, the frames that they make the client
/// send are chunks for the same request and deliver just these bytes.
pub proof fn law_bytes_are_passed_on(
    id: Seq<char>,
    bytes: Vec<u8>,
    frames: Seq<MessageView>,
    i: int,
)
    requires
        emits(Stage::Streaming, id, UpstreamEvent::Chunk(bytes), frames),
    ensures
        delivered(frames) == bytes@,
        0 <= i < frames.len() ==> frames[i] is ResponseChunk && frames[i]->ResponseChunk_id == id
            && !frames[i]->last,
{
    law_chunks_give_bytes_back(frames, id, bytes@);
    if 0 <= i < frames.len() {
        law_chunk_frames(frames, id, bytes@, i);
    }
}

/// The end of the body, or its breaking off, sends one chunk without data, marked as the last.
pub proof fn law_end_is_passed_on(id: Seq<char>, ev: UpstreamEvent, frames: Seq<MessageView>)
    requires
        ev is StreamEnded || ev is StreamFailed,
        emits(Stage::Streaming, id, ev, frames),
    ensures
        frames.len() == 1,
        frames[0] is ResponseChunk,
        frames[0]->ResponseChunk_id == id,
        frames[0]->data.len() == 0,
        frames[0]->last,
{
}

/// A failure before the head sends one error for the same request, which says what failed.
pub proof fn law_failure_is_passed_on(
    id: Seq<char>,
    why: String,
    failed_frames: Seq<MessageView>,
    late_frames: Seq<MessageView>,
)
    requires
        emits(Stage::AwaitingHead, id, UpstreamEvent::SendFailed(why), failed_frames),
        emits(Stage::AwaitingHead, id, UpstreamEvent::HeadersTimeout, late_frames),
    ensures
        failed_frames.len() == 1,
        failed_frames[0] is ResponseError,
        failed_frames[0]->ResponseError_id == id,
        failed_frames[0]->message == "upstream error: "@ + why@,
        late_frames.len() == 1,
        late_frames[0] is ResponseError,
        late_frames[0]->ResponseError_id == id,
        late_frames[0]->message == "upstream headers timeout"@,
{
}

/// Nothing is sent once a request is done or cancelled, nor for what comes before its time: bytes
/// or an end before the head, a second head or a failure to send behind it.
pub proof fn law_nothing_else_is_sent(
    stage: Stage,
    id: Seq<char>,
    ev: UpstreamEvent,
    frames: Seq<MessageView>,
)
    requires
        emits(stage, id, ev, frames),
        stage == Stage::Done || ev is Cancelled || (stage == Stage::AwaitingHead && (ev is Chunk
            || ev is StreamEnded || ev is StreamFailed)) || (stage == Stage::Streaming && (
        ev is Head || ev is SendFailed || ev is HeadersTimeout)),
    ensures
        frames.len() == 0,
{
}

/// A request waits for its head, then streams until the body ends, and is done after an end, a
/// failure before the head, a cancel, or when there is something to send and the socket is gone.
pub proof fn law_stages(ev: UpstreamEvent, open: bool)
    ensures
        stage_after(Stage::Done, ev, open) == Stage::Done,
        ev is Cancelled ==> stage_after(Stage::AwaitingHead, ev, open) == Stage::Done
            && stage_after(Stage::Streaming, ev, open) == Stage::Done,
        ev is SendFailed || ev is HeadersTimeout ==> stage_after(Stage::AwaitingHead, ev, open)
            == Stage::Done && stage_after(Stage::Streaming, ev, open) == Stage::Streaming,
        ev is Head ==> stage_after(Stage::AwaitingHead, ev, true) == Stage::Streaming
            && stage_after(Stage::AwaitingHead, ev, false) == Stage::Done && stage_after(
            Stage::Streaming,
            ev,
            open,
        ) == Stage::Streaming,
        ev matches UpstreamEvent::Chunk(bytes) ==> stage_after(Stage::AwaitingHead, ev, open)
            == Stage::AwaitingHead && stage_after(Stage::Streaming, ev, true) == Stage::Streaming
            && (bytes@.len() == 0 <==> stage_after(Stage::Streaming, ev, false)
            == Stage::Streaming),
        ev is StreamEnded || ev is StreamFailed ==> stage_after(Stage::AwaitingHead, ev, open)
            == Stage::AwaitingHead && stage_after(Stage::Streaming, ev, open) == Stage::Done,
{
}

/// Runs of bytes, one behind the other.
pub open spec fn flat(parts: Seq<Vec<u8>>) -> Seq<u8>
    decreases parts.len(),
{
    if parts.len() == 0 {
        Seq::empty()
    } else {
        flat(parts.drop_last()) + parts.last()@
    }
}

/// The local server answers with a head and streams some parts.
pub open spec fn answers(
    steps: Seq<Step>,
    status: u16,
    headers: Vec<RawHeader>,
    parts: Seq<Vec<u8>>,
) -> bool {
    &&& steps.len() == parts.len() + 1
    &&& steps[0].ev == (UpstreamEvent::Head { status, headers })
    &&& forall|i: int|
        1 <= i < steps.len() ==> (#[trigger] steps[i]).ev == UpstreamEvent::Chunk(parts[i - 1])
}

/// Whatever status, headers and parts the local server answers with, the client sends first a head
/// with just that status and the headers that the tunnel carries, then all the parts' bytes, and
/// with the end of the body a last chunk without data.
pub proof fn law_answer_is_sent_whole(
    id: Seq<char>,
    status: u16,
    headers: Vec<RawHeader>,
    parts: Seq<Vec<u8>>,
    steps: Seq<Step>,
    end: Step,
)
    requires
        answers(steps, status, headers, parts),
        follows(id, steps.push(end)),
        end.ev is StreamEnded || end.ev is StreamFailed,
    ensures
        stage_at(steps) == Stage::Streaming,
        sent(steps).len() > 0,
        sent(steps)[0] is ResponseHead,
        sent(steps)[0]->ResponseHead_id == id,
        sent(steps)[0]->status == status,
        sent(steps)[0]->headers == carried(headers.deep_view()),
        delivered(sent(steps)) == flat(parts),
        sent(steps.push(end)).len() == sent(steps).len() + 1,
        sent(steps.push(end)).drop_last() == sent(steps),
        sent(steps.push(end)).last() is ResponseChunk,
        sent(steps.push(end)).last()->ResponseChunk_id == id,
        sent(steps.push(end)).last()->data.len() == 0,
        sent(steps.push(end)).last()->last,
        stage_at(steps.push(end)) == Stage::Done,
{
    assert(steps.push(end).drop_last() =~= steps);
    lemma_answer(id, status, headers, parts, steps);
    law_end_is_passed_on(id, end.ev, end.frames);
    assert(sent(steps.push(end)).drop_last() =~= sent(steps));
}

proof fn lemma_answer(
    id: Seq<char>,
    status: u16,
    headers: Vec<RawHeader>,
    parts: Seq<Vec<u8>>,
    steps: Seq<Step>,
)
    requires
        answers(steps, status, headers, parts),
        follows(id, steps),
    ensures
        stage_at(steps) == Stage::Streaming,
        sent(steps).len() > 0,
        sent(steps)[0] is ResponseHead,
        sent(steps)[0]->ResponseHead_id == id,
        sent(steps)[0]->status == status,
        sent(steps)[0]->headers == carried(headers.deep_view()),
        delivered(sent(steps)) == flat(parts),
    decreases steps.len(),
{
    let rest = steps.drop_last();
    let last = steps.last();
    if parts.len() == 0 {
        reveal_with_fuel(stage_at, 2);
        reveal_with_fuel(sent, 2);
        reveal_with_fuel(delivered, 2);
        assert(rest =~= Seq::empty());
        assert(steps[0] == last);
        law_head_is_passed_on(id, status, headers, last.frames);
        assert(sent(steps) =~= last.frames);
        assert(last.frames.drop_last() =~= Seq::empty());
    } else {
        let part = parts.last();
        assert(answers(rest, status, headers, parts.drop_last())) by {
            assert(rest[0] == steps[0]);
            assert forall|i: int| 1 <= i < rest.len() implies (#[trigger] rest[i]).ev
                == UpstreamEvent::Chunk(parts.drop_last()[i - 1]) by {
                assert(rest[i] == steps[i]);
            }
        }
        lemma_answer(id, status, headers, parts.drop_last(), rest);
        assert(steps[steps.len() - 1].ev == UpstreamEvent::Chunk(part));
        law_bytes_are_passed_on(id, part, last.frames, 0);
        lemma_delivered_concat(sent(rest), last.frames);
    }
}

/// The forwarding of every request, whatever it asks for, begins under the request's own id and
/// awaits the head.
pub proof fn law_forwarding_starts(req: RequestView, f: Forwarding)
    ensures
        started(req).id == req.id,
        started(req).stage == Stage::AwaitingHead,
        f@.id == f.id@,
        f@.stage == f.stage,
{
}

} // verus!
