//! A proxied connection, as a machine: it takes what was read and decided, and says what to do
//! next. Each answer is a list of effects to carry out in order; only the last of them may wait
//! for a reply, and an effect that cannot be carried out ends the connection.
use crate::events;
use crate::events::{Direction, Endpoint, EventDraft, EventKind};
use crate::hooks;
use crate::hooks::{HookPhase, InterceptionAction};
use crate::parsers::http1;
use crate::parsers::http1::{Head, RequestHead, ResponseHead};
use crate::proxy::framing;
use crate::proxy::framing::Framing;
use crate::proxy::message;
use crate::proxy::message::ProxyError;
use crate::text;
use crate::textmap::Headers;
use crate::wire;
use vstd::prelude::*;

verus! {

/// One of the two peers of the proxy.
#[derive(Debug, Clone, Copy, PartialEq, Eq, Structural)]
pub enum Side {
    Client,
    Upstream,
}

/// What to do.
#[derive(Debug)]
pub enum Effect {
    /// Record an event.
    Emit(EventDraft),
    /// Ask the hooks about an event, record the event, and reply with the decision.
    Decide { phase: HookPhase, event: EventDraft, body: Option<Vec<u8>> },
    /// Read a head, and reply with it or with the error in words.
    ReadHead(Side),
    /// Reply whether some hook wants JSON bodies.
    AskJson,
    /// Read this many bytes, and reply with them.
    ReadBody(Side, usize),
    /// Wait this many milliseconds.
    Sleep(u64),
    /// Read a body and throw it away.
    Drain(Side, Framing),
    /// Write bytes.
    Write(Side, Vec<u8>),
    /// Pass a body on from this side to the other.
    Relay(Side, Framing),
    /// Pass everything on, both ways, until both sides are done.
    Tunnel,
    /// The connection is over.
    Close,
    /// The connection cannot go on, for this reason.
    Fail(String),
}

/// What an effect gave.
#[derive(Debug)]
pub enum Input {
    Head(Head),
    HeadFailed(String),
    Decision(InterceptionAction),
    WantsJson(bool),
    Body(Vec<u8>),
}

/// How far an exchange is; `closes` says that no other follows it.
#[derive(Debug)]
pub enum State {
    AwaitRequest,
    DecideRequest { request: RequestHead },
    AskRequest { request: RequestHead, closes: bool },
    ReadRequest { request: RequestHead, closes: bool },
    DecideRequestBody { request: RequestHead, body: Vec<u8>, closes: bool },
    AwaitResponse { closes: bool },
    DecideResponse { response: ResponseHead, closes: bool },
    AskResponse { response: ResponseHead, closes: bool },
    ReadResponse { response: ResponseHead, closes: bool },
    DecideResponseBody { response: ResponseHead, body: Vec<u8>, closes: bool },
    Finished,
}

/// A proxied connection.
#[derive(Debug)]
pub struct Session {
    pub id: String,
    pub source: Endpoint,
    pub destination: Endpoint,
    pub max_hook_json_body_bytes: usize,
    pub state: State,
}

// ---------------------------------------------------------------------------------------------
// Models
// ---------------------------------------------------------------------------------------------

/// The model of an [`Effect`].
pub enum EffectView {
    Emit(events::EventDraftView),
    Decide { phase: HookPhase, event: events::EventDraftView, body: Option<Seq<u8>> },
    ReadHead(Side),
    AskJson,
    ReadBody(Side, usize),
    Sleep(u64),
    Drain(Side, Framing),
    Write(Side, Seq<u8>),
    Relay(Side, Framing),
    Tunnel,
    Close,
    Fail(Seq<char>),
}

/// The model of an [`Input`].
pub enum InputView {
    Head(http1::HeadView),
    HeadFailed(Seq<char>),
    Decision(hooks::ActionView),
    WantsJson(bool),
    Body(Seq<u8>),
}

/// The model of a [`State`].
pub enum StateView {
    AwaitRequest,
    DecideRequest { request: http1::RequestHeadView },
    AskRequest { request: http1::RequestHeadView, closes: bool },
    ReadRequest { request: http1::RequestHeadView, closes: bool },
    DecideRequestBody { request: http1::RequestHeadView, body: Seq<u8>, closes: bool },
    AwaitResponse { closes: bool },
    DecideResponse { response: http1::ResponseHeadView, closes: bool },
    AskResponse { response: http1::ResponseHeadView, closes: bool },
    ReadResponse { response: http1::ResponseHeadView, closes: bool },
    DecideResponseBody { response: http1::ResponseHeadView, body: Seq<u8>, closes: bool },
    Finished,
}

/// What stays the same through a connection: its identity, its endpoints, and how large a body
/// may be to be shown to hooks.
pub struct PartiesView {
    pub id: Seq<char>,
    pub source: events::EndpointView,
    pub destination: events::EndpointView,
    pub limit: usize,
}

/// What an input leads to.
#[verifier::ext_equal]
pub struct StepView {
    pub state: StateView,
    pub effects: Seq<EffectView>,
}

impl View for Effect {
    type V = EffectView;

    open spec fn view(&self) -> EffectView {
        match *self {
            Effect::Emit(event) => EffectView::Emit(event@),
            Effect::Decide { phase, event, body } => EffectView::Decide {
                phase,
                event: event@,
                body: hooks::opt_body(body),
            },
            Effect::ReadHead(side) => EffectView::ReadHead(side),
            Effect::AskJson => EffectView::AskJson,
            Effect::ReadBody(side, n) => EffectView::ReadBody(side, n),
            Effect::Sleep(n) => EffectView::Sleep(n),
            Effect::Drain(side, body) => EffectView::Drain(side, body),
            Effect::Write(side, bytes) => EffectView::Write(side, bytes@),
            Effect::Relay(side, body) => EffectView::Relay(side, body),
            Effect::Tunnel => EffectView::Tunnel,
            Effect::Close => EffectView::Close,
            Effect::Fail(reason) => EffectView::Fail(reason@),
        }
    }
}

/// The models of a sequence of effects.
pub open spec fn effect_views(effects: Seq<Effect>) -> Seq<EffectView> {
    Seq::new(effects.len(), |i: int| effects[i]@)
}

impl View for Input {
    type V = InputView;

    open spec fn view(&self) -> InputView {
        match *self {
            Input::Head(head) => InputView::Head(head@),
            Input::HeadFailed(reason) => InputView::HeadFailed(reason@),
            Input::Decision(action) => InputView::Decision(action@),
            Input::WantsJson(wanted) => InputView::WantsJson(wanted),
            Input::Body(bytes) => InputView::Body(bytes@),
        }
    }
}

impl View for State {
    type V = StateView;

    open spec fn view(&self) -> StateView {
        match *self {
            State::AwaitRequest => StateView::AwaitRequest,
            State::DecideRequest { request } => StateView::DecideRequest { request: request@ },
            State::AskRequest { request, closes } => StateView::AskRequest {
                request: request@,
                closes,
            },
            State::ReadRequest { request, closes } => StateView::ReadRequest {
                request: request@,
                closes,
            },
            State::DecideRequestBody { request, body, closes } => StateView::DecideRequestBody {
                request: request@,
                body: body@,
                closes,
            },
            State::AwaitResponse { closes } => StateView::AwaitResponse { closes },
            State::DecideResponse { response, closes } => StateView::DecideResponse {
                response: response@,
                closes,
            },
            State::AskResponse { response, closes } => StateView::AskResponse {
                response: response@,
                closes,
            },
            State::ReadResponse { response, closes } => StateView::ReadResponse {
                response: response@,
                closes,
            },
            State::DecideResponseBody { response, body, closes } => StateView::DecideResponseBody {
                response: response@,
                body: body@,
                closes,
            },
            State::Finished => StateView::Finished,
        }
    }
}

impl Session {
    /// What stays the same through this connection.
    pub open spec fn parties(&self) -> PartiesView {
        PartiesView {
            id: self.id@,
            source: self.source@,
            destination: self.destination@,
            limit: self.max_hook_json_body_bytes,
        }
    }
}

// ---------------------------------------------------------------------------------------------
// The machine
// ---------------------------------------------------------------------------------------------

/// The event about the opened connection.
pub open spec fn opened_draft(p: PartiesView) -> events::EventDraftView {
    events::plain_draft(
        p.id,
        Direction::ClientToServer,
        p.source,
        p.destination,
        events::EventKindView::ConnectionOpened { transport: "tcp"@ },
    )
}

/// The event about the closed connection.
pub open spec fn closed_draft(p: PartiesView) -> events::EventDraftView {
    events::plain_draft(
        p.id,
        Direction::Unknown,
        p.source,
        p.destination,
        events::EventKindView::ConnectionClosed { reason: None },
    )
}

/// The connection is over, after the given effects.
pub open spec fn over(p: PartiesView, effects: Seq<EffectView>) -> StepView {
    StepView {
        state: StateView::Finished,
        effects: effects.push(EffectView::Emit(closed_draft(p))).push(EffectView::Close),
    }
}

/// The connection cannot go on.
pub open spec fn broken(reason: Seq<char>) -> StepView {
    StepView { state: StateView::Finished, effects: seq![EffectView::Fail(reason)] }
}

/// The next request is read, after the given effects.
pub open spec fn next_request(effects: Seq<EffectView>) -> StepView {
    StepView {
        state: StateView::AwaitRequest,
        effects: effects.push(EffectView::ReadHead(Side::Client)),
    }
}

/// The bytes of a response that a hook gave.
pub open spec fn given_response(
    status: Option<u16>,
    headers: http1::HeadersView,
    body: Seq<u8>,
) -> Seq<u8> {
    message::replacement(
        match status {
            Some(code) => code,
            None => 200,
        },
        headers,
        body,
    )
}

/// A request was read: the hooks are asked about it.
pub open spec fn request_read(p: PartiesView, request: http1::RequestHeadView) -> StepView {
    StepView {
        state: StateView::DecideRequest { request },
        effects: seq![
            EffectView::Decide {
                phase: HookPhase::RequestHeaders,
                event: message::request_draft(p.id, p.source, p.destination, request),
                body: None,
            },
        ],
    }
}

/// The request goes on, after the given effects, unless its body is to be shown first.
pub open spec fn request_admitted(
    request: http1::RequestHeadView,
    closes: bool,
    effects: Seq<EffectView>,
) -> StepView {
    StepView {
        state: StateView::AskRequest { request, closes },
        effects: effects.push(EffectView::AskJson),
    }
}

/// The hooks decided about a request.
pub open spec fn request_decided(
    p: PartiesView,
    request: http1::RequestHeadView,
    action: hooks::ActionView,
) -> StepView {
    let closes = message::says_close(request.headers);
    let drain = EffectView::Drain(Side::Client, framing::request_framing(request.headers));
    match action {
        hooks::ActionView::Drop { reason } => over(p, seq![drain]),
        hooks::ActionView::Respond { status, headers, body } => next_request(
            seq![drain, EffectView::Write(Side::Client, given_response(status, headers, body))],
        ),
        hooks::ActionView::Modify { set_headers, remove_headers, body } => request_admitted(
            http1::RequestHeadView {
                headers: message::modified(request.headers, set_headers, remove_headers),
                ..request
            },
            closes,
            Seq::empty(),
        ),
        hooks::ActionView::Delay { milliseconds } => request_admitted(
            request,
            closes,
            seq![EffectView::Sleep(milliseconds)],
        ),
        hooks::ActionView::Continue => request_admitted(request, closes, Seq::empty()),
    }
}

/// The length of the body to show: none where no hook wants it.
pub open spec fn wanted_length(
    p: PartiesView,
    headers: http1::HeadersView,
    wanted: bool,
) -> Option<nat> {
    if wanted {
        message::shown_length(headers, p.limit)
    } else {
        None
    }
}

/// It is known whether hooks want JSON bodies: the body of the request is read, or the request is
/// passed on as it comes.
pub open spec fn request_asked(
    p: PartiesView,
    request: http1::RequestHeadView,
    closes: bool,
    wanted: bool,
) -> StepView {
    match wanted_length(p, request.headers, wanted) {
        Some(n) => StepView {
            state: StateView::ReadRequest { request, closes },
            effects: seq![EffectView::ReadBody(Side::Client, n as usize)],
        },
        None => StepView {
            state: StateView::AwaitResponse { closes },
            effects: seq![
                EffectView::Write(
                    Side::Upstream,
                    vstd::utf8::encode_utf8(message::request_text(request)),
                ),
                EffectView::Relay(Side::Client, framing::request_framing(request.headers)),
                EffectView::ReadHead(Side::Upstream),
            ],
        },
    }
}

/// The body of a request was read: the hooks are asked about it.
pub open spec fn request_body_read(
    p: PartiesView,
    request: http1::RequestHeadView,
    closes: bool,
    body: Seq<u8>,
) -> StepView {
    StepView {
        state: StateView::DecideRequestBody { request, body, closes },
        effects: seq![
            EffectView::Decide {
                phase: HookPhase::RequestBody,
                event: message::body_draft(
                    p.id,
                    Direction::ClientToServer,
                    p.source,
                    p.destination,
                    request.headers,
                    body.len() as usize,
                ),
                body: Some(body),
            },
        ],
    }
}

/// A request with its body is sent, after the given effects.
pub open spec fn request_sent(
    request: http1::RequestHeadView,
    body: Seq<u8>,
    closes: bool,
    effects: Seq<EffectView>,
) -> StepView {
    StepView {
        state: StateView::AwaitResponse { closes },
        effects: effects.push(
            EffectView::Write(
                Side::Upstream,
                vstd::utf8::encode_utf8(message::request_text(request)) + body,
            ),
        ).push(EffectView::ReadHead(Side::Upstream)),
    }
}

/// A body, or the one that replaces it.
pub open spec fn replaced(body: Seq<u8>, replacement: Option<Seq<u8>>) -> Seq<u8> {
    match replacement {
        Some(bytes) => bytes,
        None => body,
    }
}

/// The hooks decided about the body of a request.
pub open spec fn request_body_decided(
    p: PartiesView,
    request: http1::RequestHeadView,
    body: Seq<u8>,
    closes: bool,
    action: hooks::ActionView,
) -> StepView {
    match action {
        hooks::ActionView::Continue => request_sent(request, body, closes, Seq::empty()),
        hooks::ActionView::Delay { milliseconds } => request_sent(
            request,
            body,
            closes,
            seq![EffectView::Sleep(milliseconds)],
        ),
        hooks::ActionView::Modify { set_headers, remove_headers, body: replacement } => {
            let sent = replaced(body, replacement);
            request_sent(
                http1::RequestHeadView {
                    headers: message::fixed_length_headers(
                        message::modified(request.headers, set_headers, remove_headers),
                        sent.len(),
                    ),
                    ..request
                },
                sent,
                closes,
                Seq::empty(),
            )
        },
        hooks::ActionView::Drop { reason } => over(p, Seq::empty()),
        hooks::ActionView::Respond { status, headers, body: given } => next_request(
            seq![EffectView::Write(Side::Client, given_response(status, headers, given))],
        ),
    }
}

/// A response was read: the hooks are asked about it.
pub open spec fn response_read(
    p: PartiesView,
    response: http1::ResponseHeadView,
    closes: bool,
) -> StepView {
    StepView {
        state: StateView::DecideResponse { response, closes },
        effects: seq![
            EffectView::Decide {
                phase: HookPhase::ResponseHeaders,
                event: message::response_draft(p.id, p.source, p.destination, response),
                body: None,
            },
        ],
    }
}

/// The response goes on, after the given effects, unless its body is to be shown first.
pub open spec fn response_admitted(
    response: http1::ResponseHeadView,
    closes: bool,
    effects: Seq<EffectView>,
) -> StepView {
    StepView {
        state: StateView::AskResponse {
            response,
            closes: closes || message::says_close(response.headers),
        },
        effects: effects.push(EffectView::AskJson),
    }
}

/// The hooks decided about a response.
pub open spec fn response_decided(
    p: PartiesView,
    response: http1::ResponseHeadView,
    closes: bool,
    action: hooks::ActionView,
) -> StepView {
    let drain = EffectView::Drain(Side::Upstream, framing::response_framing(response));
    match action {
        hooks::ActionView::Drop { reason } => over(p, seq![drain]),
        hooks::ActionView::Respond { status, headers, body } => next_request(
            seq![drain, EffectView::Write(Side::Client, given_response(status, headers, body))],
        ),
        hooks::ActionView::Modify { set_headers, remove_headers, body } => response_admitted(
            http1::ResponseHeadView {
                headers: message::modified(response.headers, set_headers, remove_headers),
                ..response
            },
            closes,
            Seq::empty(),
        ),
        hooks::ActionView::Delay { milliseconds } => response_admitted(
            response,
            closes,
            seq![EffectView::Sleep(milliseconds)],
        ),
        hooks::ActionView::Continue => response_admitted(response, closes, Seq::empty()),
    }
}

/// The exchange is complete, after the given effects: a switched protocol is passed on as it is,
/// and otherwise the next request is read, unless the connection closes.
pub open spec fn exchange_done(
    p: PartiesView,
    status: u16,
    closes: bool,
    effects: Seq<EffectView>,
) -> StepView {
    if status == 101 {
        over(p, effects.push(EffectView::Tunnel))
    } else if closes {
        over(p, effects)
    } else {
        next_request(effects)
    }
}

/// It is known whether hooks want JSON bodies: the body of the response is read, or the response
/// is passed on as it comes.
pub open spec fn response_asked(
    p: PartiesView,
    response: http1::ResponseHeadView,
    closes: bool,
    wanted: bool,
) -> StepView {
    let body = framing::response_framing(response);
    match wanted_length(p, response.headers, wanted) {
        Some(n) => StepView {
            state: StateView::ReadResponse { response, closes },
            effects: seq![EffectView::ReadBody(Side::Upstream, n as usize)],
        },
        None => exchange_done(
            p,
            response.status,
            closes || body == Framing::UntilClose,
            seq![
                EffectView::Write(
                    Side::Client,
                    vstd::utf8::encode_utf8(message::response_text(response)),
                ),
                EffectView::Relay(Side::Upstream, body),
            ],
        ),
    }
}

/// The body of a response was read: the hooks are asked about it.
pub open spec fn response_body_read(
    p: PartiesView,
    response: http1::ResponseHeadView,
    closes: bool,
    body: Seq<u8>,
) -> StepView {
    StepView {
        state: StateView::DecideResponseBody { response, body, closes },
        effects: seq![
            EffectView::Decide {
                phase: HookPhase::ResponseBody,
                event: message::body_draft(
                    p.id,
                    Direction::ServerToClient,
                    p.destination,
                    p.source,
                    response.headers,
                    body.len() as usize,
                ),
                body: Some(body),
            },
        ],
    }
}

/// A response with its body is sent, after the given effects.
pub open spec fn response_sent(
    p: PartiesView,
    response: http1::ResponseHeadView,
    body: Seq<u8>,
    closes: bool,
    effects: Seq<EffectView>,
) -> StepView {
    exchange_done(
        p,
        response.status,
        closes,
        effects.push(
            EffectView::Write(
                Side::Client,
                vstd::utf8::encode_utf8(message::response_text(response)) + body,
            ),
        ),
    )
}

/// The hooks decided about the body of a response.
pub open spec fn response_body_decided(
    p: PartiesView,
    response: http1::ResponseHeadView,
    body: Seq<u8>,
    closes: bool,
    action: hooks::ActionView,
) -> StepView {
    match action {
        hooks::ActionView::Continue => response_sent(p, response, body, closes, Seq::empty()),
        hooks::ActionView::Delay { milliseconds } => response_sent(
            p,
            response,
            body,
            closes,
            seq![EffectView::Sleep(milliseconds)],
        ),
        hooks::ActionView::Modify { set_headers, remove_headers, body: replacement } => {
            let sent = replaced(body, replacement);
            response_sent(
                p,
                http1::ResponseHeadView {
                    headers: message::fixed_length_headers(
                        message::modified(response.headers, set_headers, remove_headers),
                        sent.len(),
                    ),
                    ..response
                },
                sent,
                closes,
                Seq::empty(),
            )
        },
        hooks::ActionView::Drop { reason } => over(p, Seq::empty()),
        hooks::ActionView::Respond { status, headers, body: given } => next_request(
            seq![EffectView::Write(Side::Client, given_response(status, headers, given))],
        ),
    }
}

/// What an input leads to. A client that sends no more ends the connection between two requests;
/// an input that answers no effect breaks it.
pub open spec fn stepped(p: PartiesView, state: StateView, input: InputView) -> StepView {
    match (state, input) {
        (StateView::AwaitRequest, InputView::Head(http1::HeadView::Request(request))) =>
        request_read(p, request),
        (StateView::AwaitRequest, InputView::Head(http1::HeadView::Response(_))) => broken(
            ProxyError::ExpectedRequest.spec_message(),
        ),
        (StateView::AwaitRequest, InputView::HeadFailed(reason)) => if text::contains_text(
            reason,
            "EOF"@,
        ) {
            over(p, Seq::empty())
        } else {
            broken(reason)
        },
        (StateView::DecideRequest { request }, InputView::Decision(action)) => request_decided(
            p,
            request,
            action,
        ),
        (StateView::AskRequest { request, closes }, InputView::WantsJson(wanted)) => request_asked(
            p,
            request,
            closes,
            wanted,
        ),
        (StateView::ReadRequest { request, closes }, InputView::Body(body)) => request_body_read(
            p,
            request,
            closes,
            body,
        ),
        (
            StateView::DecideRequestBody { request, body, closes },
            InputView::Decision(action),
        ) => request_body_decided(p, request, body, closes, action),
        (
            StateView::AwaitResponse { closes },
            InputView::Head(http1::HeadView::Response(response)),
        ) => response_read(p, response, closes),
        (StateView::AwaitResponse { closes }, InputView::Head(http1::HeadView::Request(_))) =>
        broken(ProxyError::UpstreamSentRequest.spec_message()),
        (StateView::AwaitResponse { closes }, InputView::HeadFailed(reason)) => broken(reason),
        (StateView::DecideResponse { response, closes }, InputView::Decision(action)) =>
        response_decided(p, response, closes, action),
        (StateView::AskResponse { response, closes }, InputView::WantsJson(wanted)) =>
        response_asked(p, response, closes, wanted),
        (StateView::ReadResponse { response, closes }, InputView::Body(body)) =>
        response_body_read(p, response, closes, body),
        (
            StateView::DecideResponseBody { response, body, closes },
            InputView::Decision(action),
        ) => response_body_decided(p, response, body, closes, action),
        _ => broken(ProxyError::UnexpectedReply.spec_message()),
    }
}

/// What opens a connection: its first request is read, or it was read and decided before.
pub open spec fn started(
    p: PartiesView,
    first: Option<(http1::RequestHeadView, hooks::ActionView)>,
) -> StepView {
    let rest = match first {
        Some((request, action)) => request_decided(p, request, action),
        None => next_request(Seq::empty()),
    };
    StepView {
        state: rest.state,
        effects: seq![EffectView::Emit(opened_draft(p))] + rest.effects,
    }
}

// ---------------------------------------------------------------------------------------------
// Running it
// ---------------------------------------------------------------------------------------------

/// A state with effects.
struct Step {
    state: State,
    effects: Vec<Effect>,
}

impl View for Step {
    type V = StepView;

    closed spec fn view(&self) -> StepView {
        StepView { state: self.state@, effects: effect_views(self.effects@) }
    }
}

/// Appends an effect.
fn push(effects: &mut Vec<Effect>, effect: Effect)
    ensures
        effect_views(final(effects)@) == effect_views(old(effects)@).push(effect@),
{
    effects.push(effect);
    assert(effect_views(effects@) =~= effect_views(old(effects)@).push(effect@));
}

/// No effects.
pub(crate) fn none() -> (r: Vec<Effect>)
    ensures
        effect_views(r@) == Seq::<EffectView>::empty(),
{
    let r: Vec<Effect> = Vec::new();
    assert(effect_views(r@) =~= Seq::<EffectView>::empty());
    r
}

/// One effect.
pub(crate) fn one(effect: Effect) -> (r: Vec<Effect>)
    ensures
        effect_views(r@) == seq![effect@],
{
    let mut r = none();
    push(&mut r, effect);
    assert(effect_views(r@) =~= seq![effect@]);
    r
}

/// Two effects.
pub(crate) fn two(first: Effect, second: Effect) -> (r: Vec<Effect>)
    ensures
        effect_views(r@) == seq![first@, second@],
{
    let mut r = one(first);
    push(&mut r, second);
    assert(effect_views(r@) =~= seq![first@, second@]);
    r
}

/// The connection cannot go on.
fn break_off(reason: String) -> (r: Step)
    ensures
        r@ == broken(reason@),
{
    Step { state: State::Finished, effects: one(Effect::Fail(reason)) }
}

/// Reads the next request, after the given effects.
fn go_on(effects: Vec<Effect>) -> (r: Step)
    ensures
        r@ == next_request(effect_views(effects@)),
{
    let mut all = effects;
    push(&mut all, Effect::ReadHead(Side::Client));
    Step { state: State::AwaitRequest, effects: all }
}

/// Writes a response that a hook gave.
pub(crate) fn give_response(status: Option<u16>, headers: Headers, body: Vec<u8>) -> (r: Effect)
    ensures
        r@ == EffectView::Write(Side::Client, given_response(status, headers@, body@)),
{
    let code: u16 = match status {
        Some(code) => code,
        None => 200,
    };
    Effect::Write(Side::Client, message::write_replacement(code, headers, &body))
}

/// Admits a request, after the given effects.
fn admit_request(request: RequestHead, closes: bool, effects: Vec<Effect>) -> (r: Step)
    ensures
        r@ == request_admitted(request@, closes, effect_views(effects@)),
{
    let mut all = effects;
    push(&mut all, Effect::AskJson);
    Step { state: State::AskRequest { request, closes }, effects: all }
}

/// Admits a response, after the given effects.
fn admit_response(response: ResponseHead, closes: bool, effects: Vec<Effect>) -> (r: Step)
    ensures
        r@ == response_admitted(response@, closes, effect_views(effects@)),
{
    let mut all = effects;
    push(&mut all, Effect::AskJson);
    let ends = closes || message::closes(&response.headers);
    Step { state: State::AskResponse { response, closes: ends }, effects: all }
}

/// Sends a request with its body, after the given effects.
fn send_request(request: RequestHead, body: Vec<u8>, closes: bool, effects: Vec<Effect>) -> (r:
    Step)
    ensures
        r@ == request_sent(request@, body@, closes, effect_views(effects@)),
{
    let mut all = effects;
    let mut bytes = message::write_request_head(&request);
    wire::push_bytes(&mut bytes, &body);
    push(&mut all, Effect::Write(Side::Upstream, bytes));
    push(&mut all, Effect::ReadHead(Side::Upstream));
    Step { state: State::AwaitResponse { closes }, effects: all }
}

impl Session {
    /// A connection between two endpoints.
    pub fn new(
        id: String,
        source: Endpoint,
        destination: Endpoint,
        max_hook_json_body_bytes: usize,
    ) -> (r: Self)
        ensures
            r.parties() == (PartiesView {
                id: id@,
                source: source@,
                destination: destination@,
                limit: max_hook_json_body_bytes,
            }),
            r.state@ == StateView::AwaitRequest,
    {
        Session { id, source, destination, max_hook_json_body_bytes, state: State::AwaitRequest }
    }

    /// Ends the connection, after the given effects.
    fn end(&self, effects: Vec<Effect>) -> (r: Step)
        ensures
            r@ == over(self.parties(), effect_views(effects@)),
    {
        let mut all = effects;
        push(
            &mut all,
            Effect::Emit(
                EventDraft::new(
                    self.id.clone(),
                    Direction::Unknown,
                    self.source.clone(),
                    self.destination.clone(),
                    EventKind::ConnectionClosed { reason: None },
                ),
            ),
        );
        push(&mut all, Effect::Close);
        Step { state: State::Finished, effects: all }
    }

    /// Asks the hooks about a request.
    fn on_request(&self, request: RequestHead) -> (r: Step)
        ensures
            r@ == request_read(self.parties(), request@),
    {
        let event = message::request_event(
            self.id.as_str(),
            &self.source,
            &self.destination,
            &request,
        );
        Step {
            effects: one(Effect::Decide { phase: HookPhase::RequestHeaders, event, body: None }),
            state: State::DecideRequest { request },
        }
    }

    /// Follows the decision about a request.
    fn on_request_decision(&self, request: RequestHead, action: InterceptionAction) -> (r: Step)
        ensures
            r@ == request_decided(self.parties(), request@, action@),
    {
        let closes = message::closes(&request.headers);
        let drain = Effect::Drain(Side::Client, framing::frame_request(&request.headers));
        match action {
            InterceptionAction::Drop { reason: _ } => self.end(one(drain)),
            InterceptionAction::Respond { status, headers, body } => go_on(
                two(drain, give_response(status, headers, body)),
            ),
            InterceptionAction::Modify { set_headers, remove_headers, body: _ } => {
                let changed = message::modify_request(request, set_headers, remove_headers);
                admit_request(changed, closes, none())
            },
            InterceptionAction::Delay { milliseconds } => admit_request(
                request,
                closes,
                one(Effect::Sleep(milliseconds)),
            ),
            InterceptionAction::Continue => admit_request(request, closes, none()),
        }
    }

    /// Finds out whether a body is to be shown, and its length.
    fn length_to_show(&self, headers: &Headers, wanted: bool) -> (r: Option<usize>)
        ensures
            message::length_model(r) == wanted_length(self.parties(), headers@, wanted),
    {
        if wanted {
            message::json_body_length(headers, self.max_hook_json_body_bytes)
        } else {
            None
        }
    }

    /// Reads the body of a request, or passes the request on.
    fn on_request_asked(&self, request: RequestHead, closes: bool, wanted: bool) -> (r: Step)
        ensures
            r@ == request_asked(self.parties(), request@, closes, wanted),
    {
        match self.length_to_show(&request.headers, wanted) {
            Some(n) => Step {
                state: State::ReadRequest { request, closes },
                effects: one(Effect::ReadBody(Side::Client, n)),
            },
            None => {
                let mut effects = two(
                    Effect::Write(Side::Upstream, message::write_request_head(&request)),
                    Effect::Relay(Side::Client, framing::frame_request(&request.headers)),
                );
                push(&mut effects, Effect::ReadHead(Side::Upstream));
                let step = Step { state: State::AwaitResponse { closes }, effects };
                assert(step@ =~= request_asked(self.parties(), request@, closes, wanted));
                step
            },
        }
    }

    /// Asks the hooks about the body of a request.
    fn on_request_body(&self, request: RequestHead, closes: bool, body: Vec<u8>) -> (r: Step)
        ensures
            r@ == request_body_read(self.parties(), request@, closes, body@),
    {
        let event = message::body_event(
            self.id.as_str(),
            Direction::ClientToServer,
            &self.source,
            &self.destination,
            &request.headers,
            body.len(),
        );
        let shown = vstd::slice::slice_to_vec(&body);
        Step {
            state: State::DecideRequestBody { request, body, closes },
            effects: one(
                Effect::Decide { phase: HookPhase::RequestBody, event, body: Some(shown) },
            ),
        }
    }

    /// Follows the decision about the body of a request.
    fn on_request_body_decision(
        &self,
        request: RequestHead,
        body: Vec<u8>,
        closes: bool,
        action: InterceptionAction,
    ) -> (r: Step)
        ensures
            r@ == request_body_decided(self.parties(), request@, body@, closes, action@),
    {
        match action {
            InterceptionAction::Continue => send_request(request, body, closes, none()),
            InterceptionAction::Delay { milliseconds } => send_request(
                request,
                body,
                closes,
                one(Effect::Sleep(milliseconds)),
            ),
            InterceptionAction::Modify { set_headers, remove_headers, body: replacement } => {
                let mut changed = message::modify_request(request, set_headers, remove_headers);
                let sent = match replacement {
                    Some(bytes) => bytes,
                    None => body,
                };
                message::set_fixed_body_headers(&mut changed.headers, sent.len());
                send_request(changed, sent, closes, none())
            },
            InterceptionAction::Drop { reason: _ } => self.end(none()),
            InterceptionAction::Respond { status, headers, body: given } => go_on(
                one(give_response(status, headers, given)),
            ),
        }
    }

    /// Asks the hooks about a response.
    fn on_response(&self, response: ResponseHead, closes: bool) -> (r: Step)
        ensures
            r@ == response_read(self.parties(), response@, closes),
    {
        let event = message::response_event(
            self.id.as_str(),
            &self.source,
            &self.destination,
            &response,
        );
        Step {
            effects: one(Effect::Decide { phase: HookPhase::ResponseHeaders, event, body: None }),
            state: State::DecideResponse { response, closes },
        }
    }

    /// Follows the decision about a response.
    fn on_response_decision(
        &self,
        response: ResponseHead,
        closes: bool,
        action: InterceptionAction,
    ) -> (r: Step)
        ensures
            r@ == response_decided(self.parties(), response@, closes, action@),
    {
        let drain = Effect::Drain(Side::Upstream, framing::frame_response(&response));
        match action {
            InterceptionAction::Drop { reason: _ } => self.end(one(drain)),
            InterceptionAction::Respond { status, headers, body } => go_on(
                two(drain, give_response(status, headers, body)),
            ),
            InterceptionAction::Modify { set_headers, remove_headers, body: _ } => {
                let changed = message::modify_response(response, set_headers, remove_headers);
                admit_response(changed, closes, none())
            },
            InterceptionAction::Delay { milliseconds } => admit_response(
                response,
                closes,
                one(Effect::Sleep(milliseconds)),
            ),
            InterceptionAction::Continue => admit_response(response, closes, none()),
        }
    }

    /// Completes an exchange, after the given effects.
    fn complete(&self, status: u16, closes: bool, effects: Vec<Effect>) -> (r: Step)
        ensures
            r@ == exchange_done(self.parties(), status, closes, effect_views(effects@)),
    {
        if status == 101 {
            let mut all = effects;
            push(&mut all, Effect::Tunnel);
            self.end(all)
        } else if closes {
            self.end(effects)
        } else {
            go_on(effects)
        }
    }

    /// Reads the body of a response, or passes the response on.
    fn on_response_asked(&self, response: ResponseHead, closes: bool, wanted: bool) -> (r: Step)
        ensures
            r@ == response_asked(self.parties(), response@, closes, wanted),
    {
        match self.length_to_show(&response.headers, wanted) {
            Some(n) => Step {
                state: State::ReadResponse { response, closes },
                effects: one(Effect::ReadBody(Side::Upstream, n)),
            },
            None => {
                let body = framing::frame_response(&response);
                let effects = two(
                    Effect::Write(Side::Client, message::write_response_head(&response)),
                    Effect::Relay(Side::Upstream, body),
                );
                self.complete(response.status, closes || body == Framing::UntilClose, effects)
            },
        }
    }

    /// Asks the hooks about the body of a response.
    fn on_response_body(&self, response: ResponseHead, closes: bool, body: Vec<u8>) -> (r: Step)
        ensures
            r@ == response_body_read(self.parties(), response@, closes, body@),
    {
        let event = message::body_event(
            self.id.as_str(),
            Direction::ServerToClient,
            &self.destination,
            &self.source,
            &response.headers,
            body.len(),
        );
        let shown = vstd::slice::slice_to_vec(&body);
        Step {
            state: State::DecideResponseBody { response, body, closes },
            effects: one(
                Effect::Decide { phase: HookPhase::ResponseBody, event, body: Some(shown) },
            ),
        }
    }

    /// Sends a response with its body, after the given effects.
    fn send_response(
        &self,
        response: ResponseHead,
        body: Vec<u8>,
        closes: bool,
        effects: Vec<Effect>,
    ) -> (r: Step)
        ensures
            r@ == response_sent(
                self.parties(),
                response@,
                body@,
                closes,
                effect_views(effects@),
            ),
    {
        let mut all = effects;
        let mut bytes = message::write_response_head(&response);
        wire::push_bytes(&mut bytes, &body);
        push(&mut all, Effect::Write(Side::Client, bytes));
        self.complete(response.status, closes, all)
    }

    /// Follows the decision about the body of a response.
    fn on_response_body_decision(
        &self,
        response: ResponseHead,
        body: Vec<u8>,
        closes: bool,
        action: InterceptionAction,
    ) -> (r: Step)
        ensures
            r@ == response_body_decided(self.parties(), response@, body@, closes, action@),
    {
        match action {
            InterceptionAction::Continue => self.send_response(response, body, closes, none()),
            InterceptionAction::Delay { milliseconds } => self.send_response(
                response,
                body,
                closes,
                one(Effect::Sleep(milliseconds)),
            ),
            InterceptionAction::Modify { set_headers, remove_headers, body: replacement } => {
                let mut changed = message::modify_response(response, set_headers, remove_headers);
                let sent = match replacement {
                    Some(bytes) => bytes,
                    None => body,
                };
                message::set_fixed_body_headers(&mut changed.headers, sent.len());
                self.send_response(changed, sent, closes, none())
            },
            InterceptionAction::Drop { reason: _ } => self.end(none()),
            InterceptionAction::Respond { status, headers, body: given } => go_on(
                one(give_response(status, headers, given)),
            ),
        }
    }

    /// Follows the error with which reading a request ended.
    fn on_request_failed(&self, reason: String) -> (r: Step)
        ensures
            r@ == (if text::contains_text(reason@, "EOF"@) {
                over(self.parties(), Seq::empty())
            } else {
                broken(reason@)
            }),
    {
        if message::is_eof(reason.as_str()) {
            self.end(none())
        } else {
            break_off(reason)
        }
    }

    /// Opens the connection, with a first request that was read and decided before, if there is
    /// one.
    pub fn start(&mut self, first: Option<(RequestHead, InterceptionAction)>) -> (r: Vec<Effect>)
        ensures
            final(self).parties() == old(self).parties(),
            (StepView { state: final(self).state@, effects: effect_views(r@) }) == started(
                old(self).parties(),
                match first {
                    Some((request, action)) => Some((request@, action@)),
                    None => None,
                },
            ),
    {
        let mut effects = one(
            Effect::Emit(
                EventDraft::new(
                    self.id.clone(),
                    Direction::ClientToServer,
                    self.source.clone(),
                    self.destination.clone(),
                    EventKind::ConnectionOpened { transport: "tcp".to_owned() },
                ),
            ),
        );
        let ghost opening = effect_views(effects@);
        let step = match first {
            Some((request, action)) => self.on_request_decision(request, action),
            None => go_on(none()),
        };
        let ghost rest = step@.effects;
        let mut more = step.effects;
        effects.append(&mut more);
        assert(effect_views(effects@) =~= opening + rest);
        self.state = step.state;
        effects
    }

    /// Takes what the last effect gave.
    pub fn step(&mut self, input: Input) -> (r: Vec<Effect>)
        ensures
            final(self).parties() == old(self).parties(),
            (StepView { state: final(self).state@, effects: effect_views(r@) }) == stepped(
                old(self).parties(),
                old(self).state@,
                input@,
            ),
    {
        let mut state = State::Finished;
        std::mem::swap(&mut state, &mut self.state);
        let step = match (state, input) {
            (State::AwaitRequest, Input::Head(Head::Request(request))) => self.on_request(request),
            (State::AwaitRequest, Input::Head(Head::Response(_))) => break_off(
                ProxyError::ExpectedRequest.message(),
            ),
            (State::AwaitRequest, Input::HeadFailed(reason)) => self.on_request_failed(reason),
            (State::DecideRequest { request }, Input::Decision(action)) => self.on_request_decision(
                request,
                action,
            ),
            (
                State::AskRequest { request, closes },
                Input::WantsJson(wanted),
            ) => self.on_request_asked(request, closes, wanted),
            (State::ReadRequest { request, closes }, Input::Body(body)) => self.on_request_body(
                request,
                closes,
                body,
            ),
            (
                State::DecideRequestBody { request, body, closes },
                Input::Decision(action),
            ) => self.on_request_body_decision(request, body, closes, action),
            (
                State::AwaitResponse { closes },
                Input::Head(Head::Response(response)),
            ) => self.on_response(response, closes),
            (State::AwaitResponse { closes: _ }, Input::Head(Head::Request(_))) => break_off(
                ProxyError::UpstreamSentRequest.message(),
            ),
            (State::AwaitResponse { closes: _ }, Input::HeadFailed(reason)) => break_off(reason),
            (
                State::DecideResponse { response, closes },
                Input::Decision(action),
            ) => self.on_response_decision(response, closes, action),
            (
                State::AskResponse { response, closes },
                Input::WantsJson(wanted),
            ) => self.on_response_asked(response, closes, wanted),
            (State::ReadResponse { response, closes }, Input::Body(body)) => self.on_response_body(
                response,
                closes,
                body,
            ),
            (
                State::DecideResponseBody { response, body, closes },
                Input::Decision(action),
            ) => self.on_response_body_decision(response, body, closes, action),
            _ => break_off(ProxyError::UnexpectedReply.message()),
        };
        self.state = step.state;
        step.effects
    }
}

// ---------------------------------------------------------------------------------------------
// Laws
// ---------------------------------------------------------------------------------------------

/// An effect that waits for a reply.
pub open spec fn waits(effect: EffectView) -> bool {
    effect is Decide || effect is ReadHead || effect is AskJson || effect is ReadBody
}

/// An effect that ends the connection.
pub open spec fn ends(effect: EffectView) -> bool {
    effect is Close || effect is Fail
}

/// An effect that reads from the upstream peer or writes to it.
pub open spec fn touches_upstream(effect: EffectView) -> bool {
    match effect {
        EffectView::ReadHead(side) => side == Side::Upstream,
        EffectView::ReadBody(side, _) => side == Side::Upstream,
        EffectView::Drain(side, _) => side == Side::Upstream,
        EffectView::Write(side, _) => side == Side::Upstream,
        EffectView::Relay(_, _) => true,
        EffectView::Tunnel => true,
        _ => false,
    }
}

/// The effect for whose reply a state waits.
pub open spec fn awaited(state: StateView, effect: EffectView) -> bool {
    match state {
        StateView::AwaitRequest => effect == EffectView::ReadHead(Side::Client),
        StateView::DecideRequest { .. } => effect is Decide,
        StateView::AskRequest { .. } => effect is AskJson,
        StateView::ReadRequest { .. } => effect is ReadBody && effect->ReadBody_0 == Side::Client,
        StateView::DecideRequestBody { .. } => effect is Decide,
        StateView::AwaitResponse { .. } => effect == EffectView::ReadHead(Side::Upstream),
        StateView::DecideResponse { .. } => effect is Decide,
        StateView::AskResponse { .. } => effect is AskJson,
        StateView::ReadResponse { .. } => effect is ReadBody && effect->ReadBody_0
            == Side::Upstream,
        StateView::DecideResponseBody { .. } => effect is Decide,
        StateView::Finished => ends(effect),
    }
}

/// An input that answers an effect.
pub open spec fn answers(effect: EffectView, input: InputView) -> bool {
    match effect {
        EffectView::Decide { .. } => input is Decision,
        EffectView::ReadHead(_) => input is Head || input is HeadFailed,
        EffectView::AskJson => input is WantsJson,
        EffectView::ReadBody(_, _) => input is Body,
        _ => false,
    }
}

/// Effects are in order: the last one is the one for whose reply the state waits, or ends the
/// connection, and none before it does either.
pub open spec fn orderly(step: StepView) -> bool {
    &&& step.effects.len() > 0
    &&& awaited(step.state, step.effects.last())
    &&& forall|i: int|
        0 <= i < step.effects.len() - 1 ==> !waits(#[trigger] step.effects[i]) && !ends(
            step.effects[i],
        )
}

/// The event about the closed connection is recorded just before the connection is over, and at
/// no other time.
pub open spec fn closes_properly(p: PartiesView, step: StepView) -> bool {
    forall|i: int|
        0 <= i < step.effects.len() ==> {
            &&& #[trigger] step.effects[i] is Close ==> i > 0 && step.effects[i - 1]
                == EffectView::Emit(closed_draft(p))
            &&& step.effects[i] == EffectView::Emit(closed_draft(p)) ==> i + 1
                < step.effects.len() && step.effects[i + 1] is Close
        }
}

/// Effects none of which waits, ends the connection or records its end.
spec fn quiet(p: PartiesView, effects: Seq<EffectView>) -> bool {
    forall|i: int|
        0 <= i < effects.len() ==> {
            &&& !waits(#[trigger] effects[i])
            &&& !ends(effects[i])
            &&& effects[i] != EffectView::Emit(closed_draft(p))
        }
}

/// A step is in order and closes properly.
spec fn proper(p: PartiesView, step: StepView) -> bool {
    orderly(step) && closes_properly(p, step)
}

proof fn lemma_over(p: PartiesView, effects: Seq<EffectView>)
    requires
        quiet(p, effects),
    ensures
        proper(p, over(p, effects)),
{
    let step = over(p, effects);
    let n = effects.len() as int;
    assert(step.effects[n] == EffectView::Emit(closed_draft(p)));
    assert(step.effects[n + 1] == EffectView::Close);
    assert forall|i: int| 0 <= i < n implies step.effects[i] == effects[i] by {}
    assert(orderly(step));
    assert(closes_properly(p, step));
}

proof fn lemma_next_request(p: PartiesView, effects: Seq<EffectView>)
    requires
        quiet(p, effects),
    ensures
        proper(p, next_request(effects)),
{
    let step = next_request(effects);
    assert forall|i: int| 0 <= i < effects.len() implies step.effects[i] == effects[i] by {}
}

proof fn lemma_request_decided(
    p: PartiesView,
    request: http1::RequestHeadView,
    action: hooks::ActionView,
)
    ensures
        proper(p, request_decided(p, request, action)),
{
    let drain = EffectView::Drain(Side::Client, framing::request_framing(request.headers));
    match action {
        hooks::ActionView::Drop { reason } => {
            lemma_over(p, seq![drain]);
        },
        hooks::ActionView::Respond { status, headers, body } => {
            lemma_next_request(
                p,
                seq![drain, EffectView::Write(Side::Client, given_response(status, headers, body))],
            );
        },
        _ => {},
    }
}

proof fn lemma_request_body_decided(
    p: PartiesView,
    request: http1::RequestHeadView,
    body: Seq<u8>,
    closes: bool,
    action: hooks::ActionView,
)
    ensures
        proper(p, request_body_decided(p, request, body, closes, action)),
{
    match action {
        hooks::ActionView::Drop { reason } => {
            lemma_over(p, Seq::empty());
        },
        hooks::ActionView::Respond { status, headers, body: given } => {
            lemma_next_request(
                p,
                seq![EffectView::Write(Side::Client, given_response(status, headers, given))],
            );
        },
        _ => {},
    }
}

proof fn lemma_response_decided(
    p: PartiesView,
    response: http1::ResponseHeadView,
    closes: bool,
    action: hooks::ActionView,
)
    ensures
        proper(p, response_decided(p, response, closes, action)),
{
    let drain = EffectView::Drain(Side::Upstream, framing::response_framing(response));
    match action {
        hooks::ActionView::Drop { reason } => {
            lemma_over(p, seq![drain]);
        },
        hooks::ActionView::Respond { status, headers, body } => {
            lemma_next_request(
                p,
                seq![drain, EffectView::Write(Side::Client, given_response(status, headers, body))],
            );
        },
        _ => {},
    }
}

proof fn lemma_exchange_done(
    p: PartiesView,
    status: u16,
    closes: bool,
    effects: Seq<EffectView>,
)
    requires
        quiet(p, effects),
    ensures
        proper(p, exchange_done(p, status, closes, effects)),
{
    assert(quiet(p, effects.push(EffectView::Tunnel)));
    lemma_over(p, effects.push(EffectView::Tunnel));
    lemma_over(p, effects);
    lemma_next_request(p, effects);
}

proof fn lemma_response_asked(
    p: PartiesView,
    response: http1::ResponseHeadView,
    closes: bool,
    wanted: bool,
)
    ensures
        proper(p, response_asked(p, response, closes, wanted)),
{
    let body = framing::response_framing(response);
    let effects = seq![
        EffectView::Write(Side::Client, vstd::utf8::encode_utf8(message::response_text(response))),
        EffectView::Relay(Side::Upstream, body),
    ];
    lemma_exchange_done(
        p,
        response.status,
        closes || body == Framing::UntilClose,
        effects,
    );
}

proof fn lemma_response_sent(
    p: PartiesView,
    response: http1::ResponseHeadView,
    body: Seq<u8>,
    closes: bool,
    effects: Seq<EffectView>,
)
    requires
        quiet(p, effects),
    ensures
        proper(p, response_sent(p, response, body, closes, effects)),
{
    let all = effects.push(
        EffectView::Write(
            Side::Client,
            vstd::utf8::encode_utf8(message::response_text(response)) + body,
        ),
    );
    assert(quiet(p, all));
    lemma_exchange_done(p, response.status, closes, all);
}

proof fn lemma_response_body_decided(
    p: PartiesView,
    response: http1::ResponseHeadView,
    body: Seq<u8>,
    closes: bool,
    action: hooks::ActionView,
)
    ensures
        proper(p, response_body_decided(p, response, body, closes, action)),
{
    match action {
        hooks::ActionView::Continue => {
            lemma_response_sent(p, response, body, closes, Seq::empty());
        },
        hooks::ActionView::Delay { milliseconds } => {
            lemma_response_sent(
                p,
                response,
                body,
                closes,
                seq![EffectView::Sleep(milliseconds)],
            );
        },
        hooks::ActionView::Modify { set_headers, remove_headers, body: replacement } => {
            let sent = replaced(body, replacement);
            lemma_response_sent(
                p,
                http1::ResponseHeadView {
                    headers: message::fixed_length_headers(
                        message::modified(response.headers, set_headers, remove_headers),
                        sent.len(),
                    ),
                    ..response
                },
                sent,
                closes,
                Seq::empty(),
            );
        },
        hooks::ActionView::Drop { reason } => {
            lemma_over(p, Seq::empty());
        },
        hooks::ActionView::Respond { status, headers, body: given } => {
            lemma_next_request(
                p,
                seq![EffectView::Write(Side::Client, given_response(status, headers, given))],
            );
        },
    }
}

/// Whatever arrives, the effects that follow are in order, and a closed connection is recorded
/// once, at its end.
pub proof fn steps_are_orderly(p: PartiesView, state: StateView, input: InputView)
    ensures
        orderly(stepped(p, state, input)),
        closes_properly(p, stepped(p, state, input)),
{
    lemma_over(p, Seq::empty());
    match (state, input) {
        (StateView::DecideRequest { request }, InputView::Decision(action)) => {
            lemma_request_decided(p, request, action);
        },
        (
            StateView::DecideRequestBody { request, body, closes },
            InputView::Decision(action),
        ) => {
            lemma_request_body_decided(p, request, body, closes, action);
        },
        (StateView::DecideResponse { response, closes }, InputView::Decision(action)) => {
            lemma_response_decided(p, response, closes, action);
        },
        (StateView::AskResponse { response, closes }, InputView::WantsJson(wanted)) => {
            lemma_response_asked(p, response, closes, wanted);
        },
        (
            StateView::DecideResponseBody { response, body, closes },
            InputView::Decision(action),
        ) => {
            lemma_response_body_decided(p, response, body, closes, action);
        },
        _ => {},
    }
}

/// A connection starts by recording that it is open, and its first effects are in order.
pub proof fn starts_are_orderly(
    p: PartiesView,
    first: Option<(http1::RequestHeadView, hooks::ActionView)>,
)
    ensures
        started(p, first).effects.len() > 1,
        started(p, first).effects[0] == EffectView::Emit(opened_draft(p)),
        orderly(started(p, first)),
{
    let rest = match first {
        Some((request, action)) => request_decided(p, request, action),
        None => next_request(Seq::empty()),
    };
    assert(orderly(rest)) by {
        if let Some((request, action)) = first {
            steps_are_orderly(
                p,
                StateView::DecideRequest { request },
                InputView::Decision(action),
            );
        }
    }
    let step = started(p, first);
    assert(step.effects.last() == rest.effects.last());
    assert forall|i: int| 0 <= i < step.effects.len() - 1 implies !waits(
        #[trigger] step.effects[i],
    ) && !ends(step.effects[i]) by {
        if i > 0 {
            assert(step.effects[i] == rest.effects[i - 1]);
        }
    }
}

/// A reply to the effect for which a state waits is never taken for an unexpected one.
pub proof fn replies_are_understood(
    p: PartiesView,
    state: StateView,
    effect: EffectView,
    input: InputView,
)
    requires
        awaited(state, effect),
        answers(effect, input),
    ensures
        match (state, input) {
            (StateView::AwaitRequest, InputView::Head(http1::HeadView::Request(request))) =>
            stepped(p, state, input) == request_read(p, request),
            (StateView::DecideRequest { request }, InputView::Decision(action)) => stepped(
                p,
                state,
                input,
            ) == request_decided(p, request, action),
            (StateView::AwaitResponse { closes }, InputView::Head(
                http1::HeadView::Response(response),
            )) => stepped(p, state, input) == response_read(p, response, closes),
            (StateView::DecideResponse { response, closes }, InputView::Decision(action)) =>
            stepped(p, state, input) == response_decided(p, response, closes, action),
            _ => true,
        },
        !(input is HeadFailed) ==> stepped(p, state, input) != broken(
            ProxyError::UnexpectedReply.spec_message(),
        ),
{
    reveal_strlit("unexpected reply");
    reveal_strlit("expected request");
    reveal_strlit("upstream sent a request");
    let unexpected = broken(ProxyError::UnexpectedReply.spec_message());
    assert("unexpected reply"@.len() == 16 && "upstream sent a request"@.len() == 23);
    assert("unexpected reply"@[0] == 'u' && "expected request"@[0] == 'e');
    let step = stepped(p, state, input);
    if step == unexpected {
        assert(step.effects[0] == EffectView::Fail("unexpected reply"@));
        assert(step.effects.len() == 1);
    }
}

/// A request that a hook answers, at its head or at its body, is not forwarded: nothing touches
/// the upstream peer, the answer is written to the client, and the next request is read.
pub proof fn answered_requests_are_not_forwarded(
    p: PartiesView,
    state: StateView,
    status: Option<u16>,
    headers: http1::HeadersView,
    body: Seq<u8>,
)
    requires
        state is DecideRequest || state is DecideRequestBody,
    ensures
        ({
            let step = stepped(
                p,
                state,
                InputView::Decision(hooks::ActionView::Respond { status, headers, body }),
            );
            &&& step.state == StateView::AwaitRequest
            &&& step.effects.contains(
                EffectView::Write(Side::Client, given_response(status, headers, body)),
            )
            &&& forall|i: int|
                0 <= i < step.effects.len() ==> !touches_upstream(#[trigger] step.effects[i])
        }),
{
    let step = stepped(
        p,
        state,
        InputView::Decision(hooks::ActionView::Respond { status, headers, body }),
    );
    let answer = EffectView::Write(Side::Client, given_response(status, headers, body));
    assert(step.effects[step.effects.len() - 2] == answer);
}

/// A response that a hook answers, at its head or at its body, is replaced: the answer is the
/// only thing that the client gets, and the next request is read.
pub proof fn answered_responses_are_replaced(
    p: PartiesView,
    state: StateView,
    status: Option<u16>,
    headers: http1::HeadersView,
    body: Seq<u8>,
)
    requires
        state is DecideResponse || state is DecideResponseBody,
    ensures
        ({
            let step = stepped(
                p,
                state,
                InputView::Decision(hooks::ActionView::Respond { status, headers, body }),
            );
            let answer = EffectView::Write(Side::Client, given_response(status, headers, body));
            &&& step.state == StateView::AwaitRequest
            &&& step.effects.contains(answer)
            &&& forall|i: int|
                0 <= i < step.effects.len() ==> ((#[trigger] step.effects[i]) is Write
                    ==> step.effects[i] == answer) && !(step.effects[i] is Relay) && !(
                step.effects[i] is Tunnel)
        }),
{
    let step = stepped(
        p,
        state,
        InputView::Decision(hooks::ActionView::Respond { status, headers, body }),
    );
    let answer = EffectView::Write(Side::Client, given_response(status, headers, body));
    assert(step.effects[step.effects.len() - 2] == answer);
}

/// A delay holds a message up and changes nothing else: what would follow without it follows
/// after the pause.
pub proof fn delayed_messages_go_on(p: PartiesView, state: StateView, milliseconds: u64)
    requires
        state is DecideRequest || state is DecideRequestBody || state is DecideResponse
            || state is DecideResponseBody,
    ensures
        ({
            let delayed = stepped(
                p,
                state,
                InputView::Decision(hooks::ActionView::Delay { milliseconds }),
            );
            let prompt = stepped(p, state, InputView::Decision(hooks::ActionView::Continue));
            &&& delayed.state == prompt.state
            &&& delayed.effects == seq![EffectView::Sleep(milliseconds)] + prompt.effects
        }),
{
    let delayed = stepped(
        p,
        state,
        InputView::Decision(hooks::ActionView::Delay { milliseconds }),
    );
    let prompt = stepped(p, state, InputView::Decision(hooks::ActionView::Continue));
    assert(delayed.effects =~= seq![EffectView::Sleep(milliseconds)] + prompt.effects);
}

/// A dropped message is passed to nobody: the connection is over, with nothing written and
/// nothing relayed.
pub proof fn dropped_messages_go_nowhere(
    p: PartiesView,
    state: StateView,
    reason: Option<Seq<char>>,
)
    requires
        state is DecideRequest || state is DecideRequestBody || state is DecideResponse
            || state is DecideResponseBody,
    ensures
        ({
            let step = stepped(
                p,
                state,
                InputView::Decision(hooks::ActionView::Drop { reason }),
            );
            &&& step.state == StateView::Finished
            &&& step.effects.last() is Close
            &&& forall|i: int|
                0 <= i < step.effects.len() ==> !((#[trigger] step.effects[i]) is Write) && !(
                step.effects[i] is Relay) && !(step.effects[i] is Tunnel)
        }),
{
}

/// A request that the hooks let continue and whose body nobody wants is forwarded as it came: the
/// head as it was read, with its target in origin form, and then the body.
pub proof fn continued_requests_are_forwarded(p: PartiesView, request: http1::RequestHeadView)
    ensures
        ({
            let decided = stepped(
                p,
                StateView::DecideRequest { request },
                InputView::Decision(hooks::ActionView::Continue),
            );
            let asked = stepped(p, decided.state, InputView::WantsJson(false));
            &&& decided.effects == seq![EffectView::AskJson]
            &&& asked.effects == seq![
                EffectView::Write(
                    Side::Upstream,
                    vstd::utf8::encode_utf8(message::request_text(request)),
                ),
                EffectView::Relay(Side::Client, framing::request_framing(request.headers)),
                EffectView::ReadHead(Side::Upstream),
            ]
        }),
{
    assert(Seq::<EffectView>::empty().push(EffectView::AskJson) =~= seq![EffectView::AskJson]);
}

/// A response that the hooks let continue and whose body nobody wants is passed on as it came.
pub proof fn continued_responses_are_forwarded(
    p: PartiesView,
    response: http1::ResponseHeadView,
    closes: bool,
)
    ensures
        ({
            let decided = stepped(
                p,
                StateView::DecideResponse { response, closes },
                InputView::Decision(hooks::ActionView::Continue),
            );
            let asked = stepped(p, decided.state, InputView::WantsJson(false));
            &&& decided.effects == seq![EffectView::AskJson]
            &&& asked.effects[0] == EffectView::Write(
                Side::Client,
                vstd::utf8::encode_utf8(message::response_text(response)),
            )
            &&& asked.effects[1] == EffectView::Relay(
                Side::Upstream,
                framing::response_framing(response),
            )
        }),
{
    assert(Seq::<EffectView>::empty().push(EffectView::AskJson) =~= seq![EffectView::AskJson]);
}

/// Bodies are read into memory only where a hook wants them and they are JSON that is neither
/// compressed nor chunked, with a stated length within the limit.
pub proof fn only_wanted_json_is_buffered(
    p: PartiesView,
    state: StateView,
    input: InputView,
    i: int,
)
    requires
        0 <= i < stepped(p, state, input).effects.len(),
        stepped(p, state, input).effects[i] is ReadBody,
    ensures
        input == InputView::WantsJson(true),
        ({
            let headers = match state {
                StateView::AskRequest { request, closes } => request.headers,
                StateView::AskResponse { response, closes } => response.headers,
                _ => Map::empty(),
            };
            let n = stepped(p, state, input).effects[i]->ReadBody_1;
            &&& n <= p.limit
            &&& http1::length_of(headers) == Some(n as nat)
            &&& headers.contains_key("content-type"@) && message::is_json(
                headers["content-type"@],
            )
            &&& !headers.contains_key("content-encoding"@)
            &&& !http1::chunked(headers)
        }),
{
    steps_are_orderly(p, state, input);
    let step = stepped(p, state, input);
    assert(i == step.effects.len() - 1);
    assert(step.state is ReadRequest || step.state is ReadResponse);
}

/// A JSON body that a hook wants, uncompressed and with a stated length within the limit, is read
/// and shown to the hooks before anything of its message is passed on.
pub proof fn wanted_json_is_shown(
    p: PartiesView,
    request: http1::RequestHeadView,
    response: http1::ResponseHeadView,
    closes: bool,
    body: Seq<u8>,
)
    ensures
        message::shown_length(request.headers, p.limit) matches Some(n) ==> {
            let asked = stepped(
                p,
                StateView::AskRequest { request, closes },
                InputView::WantsJson(true),
            );
            let read = stepped(p, asked.state, InputView::Body(body));
            &&& asked.effects == seq![EffectView::ReadBody(Side::Client, n as usize)]
            &&& read.effects.len() == 1
            &&& read.effects[0] matches EffectView::Decide { phase, event, body: shown } && phase
                == HookPhase::RequestBody && shown == Some(body)
        },
        message::shown_length(response.headers, p.limit) matches Some(n) ==> {
            let asked = stepped(
                p,
                StateView::AskResponse { response, closes },
                InputView::WantsJson(true),
            );
            let read = stepped(p, asked.state, InputView::Body(body));
            &&& asked.effects == seq![EffectView::ReadBody(Side::Upstream, n as usize)]
            &&& read.effects.len() == 1
            &&& read.effects[0] matches EffectView::Decide { phase, event, body: shown } && phase
                == HookPhase::ResponseBody && shown == Some(body)
        },
{
}

/// A body that a hook replaces is sent in place of the one that was read, behind a head that
/// states its length and no transfer coding.
pub proof fn replaced_bodies_are_sent(
    p: PartiesView,
    request: http1::RequestHeadView,
    response: http1::ResponseHeadView,
    body: Seq<u8>,
    closes: bool,
    set_headers: http1::HeadersView,
    remove_headers: Seq<Seq<char>>,
    given: Seq<u8>,
)
    ensures
        ({
            let action = hooks::ActionView::Modify {
                set_headers,
                remove_headers,
                body: Some(given),
            };
            let sent_request = http1::RequestHeadView {
                headers: message::fixed_length_headers(
                    message::modified(request.headers, set_headers, remove_headers),
                    given.len(),
                ),
                ..request
            };
            let sent_response = http1::ResponseHeadView {
                headers: message::fixed_length_headers(
                    message::modified(response.headers, set_headers, remove_headers),
                    given.len(),
                ),
                ..response
            };
            let onward = stepped(
                p,
                StateView::DecideRequestBody { request, body, closes },
                InputView::Decision(action),
            );
            let back = stepped(
                p,
                StateView::DecideResponseBody { response, body, closes },
                InputView::Decision(action),
            );
            &&& onward.effects[0] == EffectView::Write(
                Side::Upstream,
                vstd::utf8::encode_utf8(message::request_text(sent_request)) + given,
            )
            &&& back.effects[0] == EffectView::Write(
                Side::Client,
                vstd::utf8::encode_utf8(message::response_text(sent_response)) + given,
            )
            &&& sent_request.headers["content-length"@] == text::decimal(given.len())
            &&& !sent_request.headers.contains_key("transfer-encoding"@)
            &&& sent_response.headers["content-length"@] == text::decimal(given.len())
            &&& !sent_response.headers.contains_key("transfer-encoding"@)
        }),
{
    reveal_strlit("content-length");
    reveal_strlit("transfer-encoding");
    assert("content-length"@.len() != "transfer-encoding"@.len());
}

} // verus!
