//! The tunnel client: connecting to a relay, choosing a subdomain, and taking requests.

use crate::protocol::{
    opt_text, AckView, MessageView, RegisterAck, RegisterRequest, RegisterView, RequestView,
    SubdomainOffer, SubdomainPick, TunnelMessage, TunnelRequest,
};
use crate::tables::{handles, insert_handle, new_handles, remove_handle};
use crate::text::{
    begins_with, chars_of, decimal, find_char, lemma_first_pos, parse_number, parsed_number,
    push_decimal, text_between, trim, trim_end_char, trimmed, without_trailing,
};
use dashmap::DashMap;
use vstd::prelude::*;
use vstd::string::*;

verus! {

/// The close code with which a relay evicts a client.
pub const EVICTED_CODE: u16 = 4002;

/// Callback for tunnel status changes.
pub trait TunnelStatusCallback: Send + Sync + 'static {
    fn on_connected(&self, url: &str);

    fn on_disconnected(&self);

    fn on_evicted(&self);
}

// ---------------------------------------------------------------------------
// Connecting
// ---------------------------------------------------------------------------

/// The WebSocket URL at which a relay takes registrations. `https` and `http` become their
/// WebSocket counterparts, a URL without a scheme is taken as secure, and slashes at the end of
/// the relay URL play no part.
pub open spec fn registration_url(relay_url: Seq<char>) -> Seq<char> {
    let relay = without_trailing(relay_url, '/');
    if "ws://"@.is_prefix_of(relay) || "wss://"@.is_prefix_of(relay) {
        relay + "/_tunnel/register"@
    } else if "https://"@.is_prefix_of(relay) {
        "wss://"@ + relay.skip(8) + "/_tunnel/register"@
    } else if "http://"@.is_prefix_of(relay) {
        "ws://"@ + relay.skip(7) + "/_tunnel/register"@
    } else {
        "wss://"@ + relay + "/_tunnel/register"@
    }
}

/// The WebSocket URL at which a relay takes registrations.
pub fn register_url(relay_url: &str) -> (url: String)
    ensures
        url@ == registration_url(relay_url@),
{
    proof {
        reveal_strlit("https://");
        reveal_strlit("http://");
    }
    let relay = trim_end_char(relay_url, '/');
    let chars = chars_of(&relay);
    let mut url: String = String::new();
    if begins_with(&chars, "ws://") || begins_with(&chars, "wss://") {
        url.append(&relay);
    } else if begins_with(&chars, "https://") {
        url.append("wss://");
        let rest = text_between(&chars, 8, chars.len());
        assert(rest@ == relay@.skip(8));
        url.append(&rest);
    } else if begins_with(&chars, "http://") {
        url.append("ws://");
        let rest = text_between(&chars, 7, chars.len());
        assert(rest@ == relay@.skip(7));
        url.append(&rest);
    } else {
        url.append("wss://");
        url.append(&relay);
    }
    url.append("/_tunnel/register");
    assert(url@ =~= registration_url(relay_url@));
    url
}

/// A slash at the end of the relay URL plays no part.
pub proof fn law_trailing_slash_plays_no_part(relay_url: Seq<char>)
    ensures
        registration_url(relay_url.push('/')) == registration_url(relay_url),
{
    assert(relay_url.push('/').drop_last() =~= relay_url);
}

/// Whatever the relay URL, the client connects to a WebSocket URL that ends in the registration
/// path.
pub proof fn law_registration_url_is_websocket(relay_url: Seq<char>)
    ensures
        "ws://"@.is_prefix_of(registration_url(relay_url)) || "wss://"@.is_prefix_of(
            registration_url(relay_url),
        ),
        "/_tunnel/register"@.is_suffix_of(registration_url(relay_url)),
{
    let relay = without_trailing(relay_url, '/');
    let url = registration_url(relay_url);
    let path = "/_tunnel/register"@;
    assert(path =~= url.subrange(url.len() - path.len(), url.len() as int));
    if "ws://"@.is_prefix_of(relay) {
        assert("ws://"@ =~= url.subrange(0, "ws://"@.len() as int));
    } else if "wss://"@.is_prefix_of(relay) {
        assert("wss://"@ =~= url.subrange(0, "wss://"@.len() as int));
    } else if !"https://"@.is_prefix_of(relay) && "http://"@.is_prefix_of(relay) {
        assert("ws://"@ =~= url.subrange(0, "ws://"@.len() as int));
    } else {
        assert("wss://"@ =~= url.subrange(0, "wss://"@.len() as int));
    }
}

/// The first frame of a client.
pub open spec fn introduction(token: Seq<char>, subdomain: Option<Seq<char>>) -> RegisterView {
    RegisterView { token, subdomain }
}

/// The first frame of a client: its token and the subdomain that it would like.
pub fn register_request(token: &str, subdomain: Option<&str>) -> (reg: RegisterRequest)
    ensures
        reg.token@ == token@,
        opt_text(reg.subdomain) == (match subdomain {
            Some(s) => Some(s@),
            None => None,
        }),
        reg@ == introduction(
            token@,
            match subdomain {
                Some(s) => Some(s@),
                None => None,
            },
        ),
{
    RegisterRequest {
        token: token.to_string(),
        subdomain: match subdomain {
            Some(s) => Some(s.to_string()),
            None => None,
        },
    }
}

// ---------------------------------------------------------------------------
// Choosing a subdomain
// ---------------------------------------------------------------------------

/// How the choice of a subdomain goes on.
pub enum PickStep {
    /// This one.
    Picked(String),
    /// The user has to choose; the text is what is shown.
    Ask(String),
    /// There is nothing to choose from.
    Fail(String),
}

/// The content of a [`PickStep`].
pub enum PickView {
    Picked(Seq<char>),
    Ask(Seq<char>),
    Fail(Seq<char>),
}

impl View for PickStep {
    type V = PickView;

    open spec fn view(&self) -> PickView {
        match self {
            PickStep::Picked(s) => PickView::Picked(s@),
            PickStep::Ask(s) => PickView::Ask(s@),
            PickStep::Fail(s) => PickView::Fail(s@),
        }
    }
}

/// One line for each subdomain, numbered from one.
pub open spec fn numbered(subdomains: Seq<Seq<char>>) -> Seq<char>
    decreases subdomains.len(),
{
    if subdomains.len() == 0 {
        Seq::empty()
    } else {
        numbered(subdomains.drop_last()) + "  ["@ + decimal(subdomains.len()) + "] "@
            + subdomains.last() + "\n"@
    }
}

/// What the user is shown to choose from.
pub open spec fn pick_prompt(subdomains: Seq<Seq<char>>) -> Seq<char> {
    "\nAvailable subdomains:\n"@ + numbered(subdomains) + "Pick a subdomain (number or name): "@
}

/// How the choice among the offered subdomains goes on: a single concrete one is taken, and
/// otherwise the user chooses.
pub open spec fn pick_step(subdomains: Seq<Seq<char>>) -> PickView {
    if subdomains.len() == 0 {
        PickView::Fail("No subdomains available for this token"@)
    } else if subdomains.len() == 1 && !subdomains[0].contains('*') {
        PickView::Picked(subdomains[0])
    } else {
        PickView::Ask(pick_prompt(subdomains))
    }
}

/// Whether a text has a `*` in it.
pub fn has_wildcard(s: &str) -> (r: bool)
    ensures
        r == s@.contains('*'),
{
    let chars = chars_of(s);
    let i = find_char(&chars, '*', 0);
    proof {
        assert(chars@.skip(0) == s@);
        lemma_first_pos(s@, '*');
    }
    i < chars.len()
}

/// How the choice among the offered subdomains goes on.
pub fn pick_subdomain(subdomains: &Vec<String>) -> (step: PickStep)
    ensures
        step@ == pick_step(subdomains.deep_view()),
{
    if subdomains.len() == 0 {
        return PickStep::Fail("No subdomains available for this token".to_string());
    }
    if subdomains.len() == 1 && !has_wildcard(&subdomains[0]) {
        return PickStep::Picked(subdomains[0].clone());
    }
    let mut prompt: String = "\nAvailable subdomains:\n".to_string();
    let ghost all = subdomains.deep_view();
    let ghost head = prompt@;
    let mut i: usize = 0;
    assert(all.take(0) =~= Seq::empty());
    assert(prompt@ =~= head + numbered(all.take(0)));
    while i < subdomains.len()
        invariant
            i <= subdomains@.len(),
            all == subdomains.deep_view(),
            prompt@ == head + numbered(all.take(i as int)),
        decreases subdomains@.len() - i,
    {
        assert(all.take(i + 1).drop_last() =~= all.take(i as int));
        assert(all.take(i + 1).last() == subdomains@[i as int]@);
        prompt.append("  [");
        push_decimal(&mut prompt, i as u128 + 1);
        prompt.append("] ");
        prompt.append(&subdomains[i]);
        prompt.append("\n");
        i = i + 1;
        assert(prompt@ =~= head + numbered(all.take(i as int)));
    }
    assert(all.take(i as int) =~= all);
    prompt.append("Pick a subdomain (number or name): ");
    PickStep::Ask(prompt)
}

/// The subdomain that the user's answer names: a number from the list, unless a pattern stands
/// there, or else the answer itself.
pub open spec fn answer_names(subdomains: Seq<Seq<char>>, line: Seq<char>) -> Result<
    Seq<char>,
    Seq<char>,
> {
    let input = trimmed(line);
    match parsed_number(input, usize::MAX as nat) {
        Some(n) => if 1 <= n <= subdomains.len() {
            let picked = subdomains[n - 1];
            if picked.contains('*') {
                Err(
                    "'"@ + picked
                        + "' is a wildcard pattern - enter a concrete subdomain name instead"@,
                )
            } else {
                Ok(picked)
            }
        } else {
            Ok(input)
        },
        None => Ok(input),
    }
}

/// The subdomain that the user's answer names.
pub fn read_answer(subdomains: &Vec<String>, line: &str) -> (r: Result<String, String>)
    ensures
        match r {
            Ok(s) => answer_names(subdomains.deep_view(), line@) == Ok::<_, Seq<char>>(s@),
            Err(e) => answer_names(subdomains.deep_view(), line@) == Err::<Seq<char>, _>(e@),
        },
{
    let input = trim(line);
    match parse_number(&input, usize::MAX as u64) {
        Some(n) => {
            if n >= 1 && n <= subdomains.len() as u64 {
                let picked = &subdomains[(n - 1) as usize];
                assert(picked@ == subdomains.deep_view()[n - 1]);
                if has_wildcard(picked) {
                    let mut e: String = "'".to_string();
                    e.append(picked);
                    e.append("' is a wildcard pattern - enter a concrete subdomain name instead");
                    return Err(e);
                }
                return Ok(picked.clone());
            }
            Ok(input)
        },
        None => Ok(input),
    }
}

/// A numbered choice is always a concrete one from the list.
pub proof fn law_numbered_choice_is_concrete(subdomains: Seq<Seq<char>>, line: Seq<char>, n: nat)
    requires
        parsed_number(trimmed(line), usize::MAX as nat) == Some(n),
        1 <= n <= subdomains.len(),
        answer_names(subdomains, line) is Ok,
    ensures
        answer_names(subdomains, line)->Ok_0 == subdomains[n - 1],
        !subdomains[n - 1].contains('*'),
{
}

// ---------------------------------------------------------------------------
// The answer of the relay
// ---------------------------------------------------------------------------

/// What comes from the relay before the tunnel stands.
pub enum RelayEvent {
    /// A text frame, with what it reads as.
    Text { ack: Option<RegisterAck>, offer: Option<SubdomainOffer> },
    /// A close frame, with its reason if it has one.
    Close(Option<String>),
    /// The socket failed; the text says why.
    Failed(String),
    /// The connection ended.
    Ended,
    /// Any other frame.
    Other,
}

/// What the client does next.
pub enum HandshakeStep {
    /// The tunnel stands.
    Connected(RegisterAck),
    /// Send this pick.
    Answer(SubdomainPick),
    /// Show the text, and let the user choose among the subdomains.
    Ask { subdomains: Vec<String>, prompt: String },
    /// Wait for the next frame.
    Wait,
    /// Give up; the text says why.
    Fail(String),
}

/// The content of a [`HandshakeStep`].
pub enum HandshakeView {
    Connected(AckView),
    Answer(Seq<char>),
    Ask { subdomains: Seq<Seq<char>>, prompt: Seq<char> },
    Wait,
    Fail(Seq<char>),
}

impl View for HandshakeStep {
    type V = HandshakeView;

    open spec fn view(&self) -> HandshakeView {
        match self {
            HandshakeStep::Connected(ack) => HandshakeView::Connected(ack@),
            HandshakeStep::Answer(pick) => HandshakeView::Answer(pick.subdomain@),
            HandshakeStep::Ask { subdomains, prompt } => HandshakeView::Ask {
                subdomains: subdomains.deep_view(),
                prompt: prompt@,
            },
            HandshakeStep::Wait => HandshakeView::Wait,
            HandshakeStep::Fail(why) => HandshakeView::Fail(why@),
        }
    }
}

/// What the client does next. A frame that reads as an acknowledgement is one, whatever else it
/// reads as.
pub open spec fn handshake(ev: RelayEvent) -> HandshakeView {
    match ev {
        RelayEvent::Text { ack: Some(ack), .. } => HandshakeView::Connected(ack@),
        RelayEvent::Text { ack: None, offer: Some(offer) } => match pick_step(
            offer.subdomains.deep_view(),
        ) {
            PickView::Picked(s) => HandshakeView::Answer(s),
            PickView::Ask(prompt) => HandshakeView::Ask {
                subdomains: offer.subdomains.deep_view(),
                prompt,
            },
            PickView::Fail(why) => HandshakeView::Fail(why),
        },
        RelayEvent::Text { ack: None, offer: None } => HandshakeView::Wait,
        RelayEvent::Close(Some(reason)) => HandshakeView::Fail(
            "Authentication failed: "@ + reason@,
        ),
        RelayEvent::Close(None) => HandshakeView::Fail(
            "Authentication failed: relay closed connection"@,
        ),
        RelayEvent::Failed(why) => HandshakeView::Fail("WebSocket error: "@ + why@),
        RelayEvent::Ended => HandshakeView::Fail("Relay closed connection before ack"@),
        RelayEvent::Other => HandshakeView::Wait,
    }
}

/// What the client does next while it waits for the tunnel to stand.
pub fn on_relay_event(ev: RelayEvent) -> (step: HandshakeStep)
    ensures
        step@ == handshake(ev),
{
    match ev {
        RelayEvent::Text { ack: Some(ack), .. } => HandshakeStep::Connected(ack),
        RelayEvent::Text { ack: None, offer: Some(offer) } => match pick_subdomain(
            &offer.subdomains,
        ) {
            PickStep::Picked(subdomain) => HandshakeStep::Answer(SubdomainPick { subdomain }),
            PickStep::Ask(prompt) => HandshakeStep::Ask { subdomains: offer.subdomains, prompt },
            PickStep::Fail(why) => HandshakeStep::Fail(why),
        },
        RelayEvent::Text { ack: None, offer: None } => HandshakeStep::Wait,
        RelayEvent::Close(Some(reason)) => {
            let mut why: String = "Authentication failed: ".to_string();
            why.append(&reason);
            HandshakeStep::Fail(why)
        },
        RelayEvent::Close(None) => HandshakeStep::Fail(
            "Authentication failed: relay closed connection".to_string(),
        ),
        RelayEvent::Failed(e) => {
            let mut why: String = "WebSocket error: ".to_string();
            why.append(&e);
            HandshakeStep::Fail(why)
        },
        RelayEvent::Ended => HandshakeStep::Fail("Relay closed connection before ack".to_string()),
        RelayEvent::Other => HandshakeStep::Wait,
    }
}

// ---------------------------------------------------------------------------
// The standing tunnel
// ---------------------------------------------------------------------------

/// What comes over a standing tunnel.
pub enum SessionEvent {
    /// A text frame, with the message that it reads as.
    Text(Option<TunnelMessage>),
    /// A close frame, with its code if it has one.
    Close(Option<u16>),
    /// Any other frame.
    Other,
    /// The connection ended or failed.
    Ended,
}

/// What the client does next.
pub enum SessionAction {
    /// Forward the request in a task of its own.
    Spawn(TunnelRequest),
    /// Cancel the task with this handle.
    CancelTask(u64),
    /// Nothing.
    Continue,
    /// The tunnel is over: another client took the subdomain.
    Evicted,
    /// The tunnel is over.
    Disconnected,
}

/// The content of a [`SessionAction`].
pub enum SessionView {
    Spawn(RequestView),
    CancelTask(u64),
    Continue,
    Evicted,
    Disconnected,
}

impl View for SessionAction {
    type V = SessionView;

    open spec fn view(&self) -> SessionView {
        match self {
            SessionAction::Spawn(req) => SessionView::Spawn(req@),
            SessionAction::CancelTask(task) => SessionView::CancelTask(*task),
            SessionAction::Continue => SessionView::Continue,
            SessionAction::Evicted => SessionView::Evicted,
            SessionAction::Disconnected => SessionView::Disconnected,
        }
    }
}

/// The requests that a client is forwarding, each with the handle of its task, and whether the
/// tunnel is over.
pub struct TunnelSession {
    in_flight: DashMap<String, u64>,
    over: bool,
}

/// The content of a [`TunnelSession`].
pub struct TasksView {
    pub tasks: Map<Seq<char>, u64>,
    pub over: bool,
}

impl View for TunnelSession {
    type V = TasksView;

    closed spec fn view(&self) -> TasksView {
        TasksView { tasks: handles(self.in_flight), over: self.over }
    }
}

/// Whether an event is the close with which a relay evicts a client.
pub open spec fn is_eviction(ev: SessionEvent) -> bool {
    ev matches SessionEvent::Close(Some(code)) && code == EVICTED_CODE
}

/// Whether an event ends the tunnel.
pub open spec fn is_end(ev: SessionEvent) -> bool {
    is_eviction(ev) || ev is Ended
}

/// What an event makes of a session, where `task` is the handle for a new request. Nothing changes
/// once the tunnel is over.
pub open spec fn session_after(state: TasksView, ev: SessionEvent, task: u64) -> TasksView {
    if state.over {
        state
    } else {
        TasksView {
            tasks: match ev {
                SessionEvent::Text(Some(m)) => match m@ {
                    MessageView::Request(req) => state.tasks.insert(req.id, task),
                    MessageView::Cancel { id } => state.tasks.remove(id),
                    _ => state.tasks,
                },
                _ => state.tasks,
            },
            over: is_end(ev),
        }
    }
}

/// What the client does on an event. Frames that are not addressed to a client are ignored, and
/// nothing is done once the tunnel is over.
pub open spec fn session_action(state: TasksView, ev: SessionEvent) -> SessionView {
    if state.over {
        SessionView::Continue
    } else if is_eviction(ev) {
        SessionView::Evicted
    } else {
        match ev {
            SessionEvent::Text(Some(m)) => match m@ {
                MessageView::Request(req) => SessionView::Spawn(req),
                MessageView::Cancel { id } => if state.tasks.contains_key(id) {
                    SessionView::CancelTask(state.tasks[id])
                } else {
                    SessionView::Continue
                },
                _ => SessionView::Continue,
            },
            SessionEvent::Ended => SessionView::Disconnected,
            _ => SessionView::Continue,
        }
    }
}

/// A session after the task of a request is finished.
pub open spec fn session_without(state: TasksView, id: Seq<char>) -> TasksView {
    TasksView { tasks: state.tasks.remove(id), over: state.over }
}

impl TunnelSession {
    /// A standing tunnel without requests in flight.
    pub fn new() -> (s: TunnelSession)
        ensures
            s@ == (TasksView { tasks: Map::<Seq<char>, u64>::empty(), over: false }),
    {
        TunnelSession { in_flight: new_handles(), over: false }
    }

    /// Takes one event of the tunnel; `task` is the handle for a request that it brings.
    pub fn on_event(&mut self, ev: SessionEvent, task: u64) -> (action: SessionAction)
        ensures
            final(self)@ == session_after(old(self)@, ev, task),
            action@ == session_action(old(self)@, ev),
    {
        if self.over {
            return SessionAction::Continue;
        }
        match ev {
            SessionEvent::Text(Some(TunnelMessage::Request(req))) => {
                let _ = insert_handle(&mut self.in_flight, req.id.clone(), task);
                SessionAction::Spawn(req)
            },
            SessionEvent::Text(Some(TunnelMessage::Cancel { id })) => {
                match remove_handle(&mut self.in_flight, &id) {
                    Some(task) => SessionAction::CancelTask(task),
                    None => SessionAction::Continue,
                }
            },
            SessionEvent::Close(Some(code)) => if code == EVICTED_CODE {
                self.over = true;
                SessionAction::Evicted
            } else {
                SessionAction::Continue
            },
            SessionEvent::Ended => {
                self.over = true;
                SessionAction::Disconnected
            },
            _ => SessionAction::Continue,
        }
    }

    /// The task of a request is finished.
    pub fn finished(&mut self, id: &str)
        ensures
            final(self)@.tasks == old(self)@.tasks.remove(id@),
            final(self)@.over == old(self)@.over,
            final(self)@ == session_without(old(self)@, id@),
    {
        let _ = remove_handle(&mut self.in_flight, id);
    }
}

// ---------------------------------------------------------------------------
// Laws of the standing tunnel
// ---------------------------------------------------------------------------

/// A cancel stops the task of its request, and a second cancel for it finds nothing to stop.
pub proof fn law_cancel_stops_once(
    state: TasksView,
    request: SessionEvent,
    cancel: SessionEvent,
    task: u64,
    other: u64,
)
    requires
        !state.over,
        request matches SessionEvent::Text(Some(m)) && m@ is Request,
        cancel matches SessionEvent::Text(Some(m)) && m@ is Cancel,
        request->Text_0->Some_0@->Request_0.id == cancel->Text_0->Some_0@->Cancel_id,
    ensures
        ({
            let running = session_after(state, request, task);
            let stopped = session_after(running, cancel, other);
            &&& session_action(running, cancel) == SessionView::CancelTask(task)
            &&& session_action(stopped, cancel) == SessionView::Continue
            &&& session_after(stopped, cancel, other) == stopped
        }),
{
    let running = session_after(state, request, task);
    let stopped = session_after(running, cancel, other);
    assert(session_after(stopped, cancel, other).tasks =~= stopped.tasks);
}

/// A frame that is not addressed to a client changes nothing and calls for nothing.
pub proof fn law_frames_for_the_relay_are_ignored(state: TasksView, m: TunnelMessage, task: u64)
    requires
        !(m@ is Request),
        !(m@ is Cancel),
    ensures
        session_after(state, SessionEvent::Text(Some(m)), task) == state,
        session_action(state, SessionEvent::Text(Some(m))) == SessionView::Continue,
{
}

/// What happens to a session: an event of the tunnel, with the handle for a request that it
/// brings, or the end of a task.
pub enum SessionStep {
    Event { ev: SessionEvent, task: u64 },
    Finished { id: Seq<char> },
}

/// A session after some steps.
pub open spec fn session_run(steps: Seq<SessionStep>) -> TasksView
    decreases steps.len(),
{
    if steps.len() == 0 {
        TasksView { tasks: Map::empty(), over: false }
    } else {
        let before = session_run(steps.drop_last());
        match steps.last() {
            SessionStep::Event { ev, task } => session_after(before, ev, task),
            SessionStep::Finished { id } => session_without(before, id),
        }
    }
}

/// The actions by which a session tells that its tunnel is over, in order.
pub open spec fn endings(steps: Seq<SessionStep>) -> Seq<SessionView>
    decreases steps.len(),
{
    if steps.len() == 0 {
        Seq::empty()
    } else {
        let before = endings(steps.drop_last());
        match steps.last() {
            SessionStep::Event { ev, .. } => {
                let action = session_action(session_run(steps.drop_last()), ev);
                if action is Evicted || action is Disconnected {
                    before.push(action)
                } else {
                    before
                }
            },
            SessionStep::Finished { .. } => before,
        }
    }
}

/// Whether a step ends the tunnel.
pub open spec fn ends(step: SessionStep) -> bool {
    step matches SessionStep::Event { ev, .. } && is_end(ev)
}

/// Whether a step evicts the client.
pub open spec fn evicts(step: SessionStep) -> bool {
    step matches SessionStep::Event { ev, .. } && is_eviction(ev)
}

/// The place of the first step that ends the tunnel, or the number of steps where none does.
pub open spec fn first_end(steps: Seq<SessionStep>) -> nat
    decreases steps.len(),
{
    if steps.len() == 0 {
        0
    } else {
        let before = first_end(steps.drop_last());
        if before < steps.len() - 1 || ends(steps.last()) {
            before
        } else {
            steps.len()
        }
    }
}

proof fn lemma_first_end(steps: Seq<SessionStep>)
    ensures
        first_end(steps) <= steps.len(),
        first_end(steps) < steps.len() ==> ends(steps[first_end(steps) as int]),
        forall|i: int| 0 <= i < first_end(steps) ==> !ends(#[trigger] steps[i]),
    decreases steps.len(),
{
    if steps.len() > 0 {
        let rest = steps.drop_last();
        lemma_first_end(rest);
        assert forall|i: int| 0 <= i < first_end(steps) implies !ends(#[trigger] steps[i]) by {
            if i < rest.len() {
                assert(rest[i] == steps[i]);
            }
        }
    }
}

/// A standing tunnel ends once, and in one way. It tells nothing of an end before the first step
/// that ends it; from then on it has told of exactly one end, and that it was evicted exactly
/// where that first step was the relay's close with [`EVICTED_CODE`].
pub proof fn law_session_ends_once(steps: Seq<SessionStep>)
    ensures
        (exists|i: int| 0 <= i < steps.len() && ends(#[trigger] steps[i])) <==> endings(steps).len()
            == 1,
        endings(steps).len() <= 1,
        session_run(steps).over <==> endings(steps).len() == 1,
        forall|i: int|
            0 <= i < steps.len() && ends(#[trigger] steps[i]) && (forall|j: int|
                0 <= j < i ==> !ends(#[trigger] steps[j])) ==> endings(steps) == seq![
                if evicts(steps[i]) {
                    SessionView::Evicted
                } else {
                    SessionView::Disconnected
                },
            ],
{
    lemma_first_end(steps);
    lemma_endings(steps);
    let n = first_end(steps) as int;
    if n < steps.len() {
        assert(ends(steps[n]));
    }
    assert forall|i: int|
        0 <= i < steps.len() && ends(#[trigger] steps[i]) && (forall|j: int|
            0 <= j < i ==> !ends(#[trigger] steps[j])) implies i == n by {
        if n < i {
            assert(ends(steps[n]));
        }
    }
}

proof fn lemma_endings(steps: Seq<SessionStep>)
    ensures
        session_run(steps).over <==> first_end(steps) < steps.len(),
        endings(steps) == (if first_end(steps) < steps.len() {
            seq![
                if evicts(steps[first_end(steps) as int]) {
                    SessionView::Evicted
                } else {
                    SessionView::Disconnected
                },
            ]
        } else {
            Seq::empty()
        }),
    decreases steps.len(),
{
    if steps.len() > 0 {
        let rest = steps.drop_last();
        lemma_endings(rest);
        lemma_first_end(rest);
        let n = first_end(rest) as int;
        if n < rest.len() {
            assert(rest[n] == steps[n]);
        } else {
            assert(steps[n] == steps.last());
        }
    }
}

/// While the tunnel stands, every request that comes, whatever its method, path, headers and body,
/// is forwarded as it came, by a task of its own that its id finds again.
pub proof fn law_every_request_is_forwarded(
    state: TasksView,
    m: TunnelMessage,
    req: TunnelRequest,
    task: u64,
    other: Seq<char>,
)
    requires
        !state.over,
        m == TunnelMessage::Request(req),
    ensures
        session_action(state, SessionEvent::Text(Some(m))) is Spawn,
        session_action(state, SessionEvent::Text(Some(m)))->Spawn_0 == req@,
        ({
            let after = session_after(state, SessionEvent::Text(Some(m)), task);
            &&& after.tasks.get(req.id@) == Some(task)
            &&& other != req.id@ ==> after.tasks.get(other) == state.tasks.get(other)
            &&& !after.over
        }),
{
}

/// While the tunnel stands, a cancel stops the task of its request, if there is one, and no other.
pub proof fn law_cancels_find_their_task(
    state: TasksView,
    m: TunnelMessage,
    id: String,
    task: u64,
    other: Seq<char>,
)
    requires
        !state.over,
        m == (TunnelMessage::Cancel { id }),
    ensures
        ({
            let ev = SessionEvent::Text(Some(m));
            let action = session_action(state, ev);
            let after = session_after(state, ev, task);
            &&& state.tasks.get(id@) matches Some(running) ==> action == SessionView::CancelTask(
                running,
            )
            &&& state.tasks.get(id@) is None ==> action == SessionView::Continue
            &&& after.tasks.get(id@) is None
            &&& other != id@ ==> after.tasks.get(other) == state.tasks.get(other)
            &&& !after.over
        }),
{
}

/// A close with any other code, a text that reads as no message, and any other frame change
/// nothing and call for nothing; a finished task leaves the others and the tunnel as they are.
pub proof fn law_other_frames_are_ignored(
    state: TasksView,
    code: Option<u16>,
    task: u64,
    id: Seq<char>,
    other: Seq<char>,
)
    ensures
        code != Some(4002u16) ==> session_after(state, SessionEvent::Close(code), task) == state
            && session_action(state, SessionEvent::Close(code)) == SessionView::Continue,
        session_after(state, SessionEvent::Text(None), task) == state,
        session_action(state, SessionEvent::Text(None)) == SessionView::Continue,
        session_after(state, SessionEvent::Other, task) == state,
        session_action(state, SessionEvent::Other) == SessionView::Continue,
        !session_without(state, id).tasks.contains_key(id),
        other != id ==> session_without(state, id).tasks.get(other) == state.tasks.get(other),
        session_without(state, id).over == state.over,
{
}

/// The close with code 4002 evicts and the end of the connection disconnects, each once: what
/// comes behind changes nothing and calls for nothing.
pub proof fn law_ends_are_told(state: TasksView, ev: SessionEvent, task: u64)
    ensures
        !state.over ==> session_action(state, SessionEvent::Close(Some(4002))) is Evicted
            && session_after(state, SessionEvent::Close(Some(4002)), task).over,
        !state.over ==> session_action(state, SessionEvent::Ended) is Disconnected && session_after(
            state,
            SessionEvent::Ended,
            task,
        ).over,
        state.over ==> session_action(state, ev) == SessionView::Continue && session_after(
            state,
            ev,
            task,
        ) == state,
{
}

/// The content of what a session does is what it holds, as it stands.
pub proof fn law_session_content(action: SessionAction)
    ensures
        action matches SessionAction::Spawn(req) ==> action@ == SessionView::Spawn(req@),
        action matches SessionAction::CancelTask(task) ==> action@ == SessionView::CancelTask(task),
        action is Continue <==> action@ is Continue,
        action is Evicted <==> action@ is Evicted,
        action is Disconnected <==> action@ is Disconnected,
{
}

// ---------------------------------------------------------------------------
// Laws of connecting and choosing
// ---------------------------------------------------------------------------

proof fn lemma_nothing_trails(s: Seq<char>)
    requires
        s.len() > 0,
        s.last() != '/',
    ensures
        without_trailing(s, '/') == s,
{
}

/// The host and everything behind it stay as they are: an `https` or `wss` relay is reached by
/// `wss`, an `http` or `ws` relay by `ws`, and one without a scheme by `wss`.
pub proof fn law_registration_url_keeps_the_host(rest: Seq<char>)
    requires
        rest.len() > 0,
        rest.last() != '/',
    ensures
        registration_url("https://"@ + rest) == "wss://"@ + rest + "/_tunnel/register"@,
        registration_url("http://"@ + rest) == "ws://"@ + rest + "/_tunnel/register"@,
        registration_url("wss://"@ + rest) == "wss://"@ + rest + "/_tunnel/register"@,
        registration_url("ws://"@ + rest) == "ws://"@ + rest + "/_tunnel/register"@,
        !"https://"@.is_prefix_of(rest) && !"http://"@.is_prefix_of(rest)
            && !"wss://"@.is_prefix_of(rest) && !"ws://"@.is_prefix_of(rest) ==> registration_url(rest) == "wss://"@ + rest
            + "/_tunnel/register"@,
{
    reveal_strlit("https://");
    reveal_strlit("http://");
    reveal_strlit("wss://");
    reveal_strlit("ws://");
    let a = "https://"@ + rest;
    let b = "http://"@ + rest;
    let c = "wss://"@ + rest;
    let d = "ws://"@ + rest;
    lemma_nothing_trails(a);
    lemma_nothing_trails(b);
    lemma_nothing_trails(c);
    lemma_nothing_trails(d);
    lemma_nothing_trails(rest);
    assert(a.subrange(0, 8) =~= "https://"@);
    assert(b.subrange(0, 7) =~= "http://"@);
    assert(c.subrange(0, 6) =~= "wss://"@);
    assert(d.subrange(0, 5) =~= "ws://"@);
    assert(a[0] == 'h' && b[0] == 'h' && a[4] == 's' && b[4] == ':');
    assert(a.subrange(0, 5)[0] == 'h' && a.subrange(0, 6)[0] == 'h');
    assert(b.subrange(0, 5)[0] == 'h' && b.subrange(0, 6)[0] == 'h');
    assert("ws://"@[0] == 'w' && "wss://"@[0] == 'w');
    if b.len() >= 8 {
        assert(b.subrange(0, 8)[4] == ':');
        assert("https://"@[4] == 's');
    }
    assert(a.skip(8) =~= rest);
    assert(b.skip(7) =~= rest);
}

/// A client introduces itself by its token and its wish, as they stand.
pub proof fn law_introduction(token: Seq<char>, wish: Seq<char>)
    ensures
        introduction(token, Some(wish)).token == token,
        introduction(token, Some(wish)).subdomain == Some(wish),
        introduction(token, None).token == token,
        introduction(token, None).subdomain is None,
{
}

/// Nothing to choose from is a failure, a single concrete subdomain is picked, and in all other
/// cases the user is asked.
pub proof fn law_picking(subdomains: Seq<Seq<char>>)
    ensures
        pick_step(subdomains) is Fail <==> subdomains.len() == 0,
        pick_step(subdomains) is Fail ==> pick_step(subdomains)->Fail_0
            == "No subdomains available for this token"@,
        pick_step(subdomains) is Picked <==> subdomains.len() == 1 && !subdomains[0].contains('*'),
        pick_step(subdomains) is Picked ==> pick_step(subdomains)->Picked_0 == subdomains[0],
        pick_step(subdomains) is Ask ==> pick_step(subdomains)->Ask_0
            == "\nAvailable subdomains:\n"@ + numbered(subdomains)
            + "Pick a subdomain (number or name): "@,
{
}

/// Each subdomain adds one line to the list, with its place, counted from one, and its name.
pub proof fn law_numbered(subdomains: Seq<Seq<char>>, next: Seq<char>)
    ensures
        numbered(Seq::empty()).len() == 0,
        numbered(subdomains.push(next)) == numbered(subdomains) + ("  ["@ + decimal(
            subdomains.len() + 1,
        ) + "] "@ + next + "\n"@),
{
    assert(subdomains.push(next).drop_last() =~= subdomains);
    assert(numbered(subdomains.push(next)) =~= numbered(subdomains) + ("  ["@ + decimal(
        subdomains.len() + 1,
    ) + "] "@ + next + "\n"@));
}

/// An answer that is a number from the list names the subdomain at that place, unless a pattern
/// stands there, which is refused by name.
pub proof fn law_answer_by_number(subdomains: Seq<Seq<char>>, line: Seq<char>, n: nat)
    requires
        parsed_number(trimmed(line), usize::MAX as nat) == Some(n),
        1 <= n <= subdomains.len(),
    ensures
        !subdomains[n - 1].contains('*') ==> answer_names(subdomains, line) == Ok::<_, Seq<char>>(
            subdomains[n - 1],
        ),
        subdomains[n - 1].contains('*') ==> answer_names(subdomains, line) == Err::<Seq<char>, _>(
            "'"@ + subdomains[n - 1]
                + "' is a wildcard pattern - enter a concrete subdomain name instead"@,
        ),
{
}

/// Any other answer names itself, without the white space around it: a text that is no number, and
/// a number that is not on the list.
pub proof fn law_answer_by_name(subdomains: Seq<Seq<char>>, line: Seq<char>)
    requires
        parsed_number(trimmed(line), usize::MAX as nat) matches Some(n) ==> n < 1 || n
            > subdomains.len(),
    ensures
        answer_names(subdomains, line) == Ok::<_, Seq<char>>(trimmed(line)),
{
}

/// An acknowledgement connects; an offer is answered, shown or given up on as the choice among it
/// goes; a close, a failure and the end of the connection are failures that say what came; and
/// everything else is waited out.
pub proof fn law_handshake(
    ack: RegisterAck,
    offer: SubdomainOffer,
    both: Option<SubdomainOffer>,
    why: String,
)
    ensures
        handshake(RelayEvent::Text { ack: Some(ack), offer: both }) == HandshakeView::Connected(
            ack@,
        ),
        ({
            let step = handshake(RelayEvent::Text { ack: None, offer: Some(offer) });
            let list = offer.subdomains.deep_view();
            &&& pick_step(list) is Picked ==> step == HandshakeView::Answer(
                pick_step(list)->Picked_0,
            )
            &&& pick_step(list) is Ask ==> step == (HandshakeView::Ask {
                subdomains: list,
                prompt: pick_step(list)->Ask_0,
            })
            &&& pick_step(list) is Fail ==> step == HandshakeView::Fail(pick_step(list)->Fail_0)
        }),
        handshake(RelayEvent::Text { ack: None, offer: None }) is Wait,
        handshake(RelayEvent::Other) is Wait,
        handshake(RelayEvent::Close(Some(why))) == HandshakeView::Fail(
            "Authentication failed: "@ + why@,
        ),
        handshake(RelayEvent::Close(None)) == HandshakeView::Fail(
            "Authentication failed: relay closed connection"@,
        ),
        handshake(RelayEvent::Failed(why)) == HandshakeView::Fail("WebSocket error: "@ + why@),
        handshake(RelayEvent::Ended) == HandshakeView::Fail("Relay closed connection before ack"@),
{
}

/// The content of a choice and of a step of the handshake is what they hold, as it stands.
pub proof fn law_handshake_content(pick: PickStep, step: HandshakeStep)
    ensures
        pick matches PickStep::Picked(s) ==> pick@ == PickView::Picked(s@),
        pick matches PickStep::Ask(s) ==> pick@ == PickView::Ask(s@),
        pick matches PickStep::Fail(s) ==> pick@ == PickView::Fail(s@),
        step matches HandshakeStep::Connected(ack) ==> step@ == HandshakeView::Connected(ack@),
        step matches HandshakeStep::Answer(p) ==> step@ == HandshakeView::Answer(p.subdomain@),
        step matches HandshakeStep::Ask { subdomains, prompt } ==> step@ == (HandshakeView::Ask {
            subdomains: subdomains.deep_view(),
            prompt: prompt@,
        }),
        step is Wait <==> step@ is Wait,
        step matches HandshakeStep::Fail(why) ==> step@ == HandshakeView::Fail(why@),
{
}

} // verus!
