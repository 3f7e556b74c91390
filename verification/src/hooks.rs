//! Language-neutral local WebSocket hook contract.
use crate::events;
use crate::events::TrafficEvent;
use crate::outside;
use crate::text;
use crate::textmap::{Headers, TextMap};
use vstd::prelude::*;
use vstd::string::StringExecFns;

verus! {

/// The version of the protocol.
pub const HOOK_PROTOCOL_VERSION: u8 = 1;

/// At which point of an exchange a hook is asked.
#[derive(Debug, Clone, Copy, PartialEq, Eq, Structural)]
pub enum HookPhase {
    RequestHeaders,
    RequestBody,
    ResponseHeaders,
    ResponseBody,
}

/// The message that tells a hook about an event.
#[derive(Debug, Clone)]
pub struct HookEvent {
    pub message_type: &'static str,
    pub protocol_version: u8,
    pub request_id: String,
    pub phase: HookPhase,
    pub event: TrafficEvent,
    pub body_base64: Option<String>,
}

/// Internal action model. Its WebSocket representation uses the stable names required by the
/// public protocol: `continue`, `modify`, `drop`, `respond`, and `delay`.
#[derive(Debug, Clone, PartialEq, Eq)]
#[allow(inconsistent_fields)]
pub enum InterceptionAction {
    Continue,
    Drop { reason: Option<String> },
    Respond { status: Option<u16>, headers: Headers, body: Vec<u8> },
    Modify { set_headers: Headers, remove_headers: Vec<String>, body: Option<Vec<u8>> },
    Delay { milliseconds: u64 },
}

/// An action as a hook sends it.
#[derive(Debug)]
pub struct WireAction {
    pub message_type: String,
    pub request_id: String,
    pub action: String,
    pub set_headers: Headers,
    pub remove_headers: Vec<String>,
    pub status: Option<u16>,
    pub headers: Headers,
    pub body_base64: Option<String>,
    pub reason: Option<String>,
    pub milliseconds: Option<u64>,
}

/// The first message of a hook.
#[derive(Debug)]
pub struct RegisterMessage {
    pub message_type: String,
    pub protocol_version: u8,
    pub role: String,
    pub body_mode: Option<String>,
}

/// What a hook does: gate traffic, or watch it.
#[derive(Debug, Clone, Copy, PartialEq, Eq, Structural)]
pub enum HookRole {
    Intercept,
    Observe,
}

/// An accepted registration.
#[derive(Debug, Clone, Copy, PartialEq, Eq, Structural)]
pub struct Registration {
    pub role: HookRole,
    pub json_bodies: bool,
}

/// Why a registration is refused.
#[derive(Debug, Clone, Copy, PartialEq, Eq, Structural)]
pub enum RegistrationError {
    Unsupported,
    UnknownRole,
}

/// The answer to an accepted registration.
#[derive(Debug)]
pub struct RegisteredMessage {
    pub message_type: &'static str,
    pub protocol_version: u8,
    pub role: &'static str,
    pub body_mode: &'static str,
}

/// The hook engine that lets everything pass.
#[derive(Debug, Default)]
pub struct AllowAll;

/// What came back from the interceptor.
#[derive(Debug)]
pub enum HookReply {
    /// An action.
    Action(WireAction),
    /// A message that is no text.
    NotText,
    /// A text that is no action, a broken or closed connection, or no answer in time.
    Failed,
}

/// How a decision is reached.
#[derive(Debug)]
pub enum Asking {
    /// There is nobody to ask: nothing is sent, and this is the decision.
    Decided(InterceptionAction),
    /// The interceptor is sent the event, and its replies are settled.
    Send,
}

/// The hooks that are registered, and how many decisions were asked for.
#[derive(Debug)]
pub struct WebSocketHookEngine {
    pub interceptor: Option<Registration>,
    pub observers: Vec<Registration>,
    pub sequence: u64,
    pub max_json_body_bytes: usize,
}

// ---------------------------------------------------------------------------------------------
// Models
// ---------------------------------------------------------------------------------------------

/// The model of headers.
pub type HeadersView = Map<Seq<char>, Seq<char>>;

/// The model of a [`HookEvent`].
#[verifier::ext_equal]
pub struct HookEventView {
    pub message_type: Seq<char>,
    pub protocol_version: u8,
    pub request_id: Seq<char>,
    pub phase: HookPhase,
    pub event: events::TrafficEventView,
    pub body_base64: Option<Seq<char>>,
}

/// The model of an [`InterceptionAction`].
#[allow(inconsistent_fields)]
pub enum ActionView {
    Continue,
    Drop { reason: Option<Seq<char>> },
    Respond { status: Option<u16>, headers: HeadersView, body: Seq<u8> },
    Modify { set_headers: HeadersView, remove_headers: Seq<Seq<char>>, body: Option<Seq<u8>> },
    Delay { milliseconds: u64 },
}

/// The model of a [`WireAction`].
pub struct WireActionView {
    pub message_type: Seq<char>,
    pub request_id: Seq<char>,
    pub action: Seq<char>,
    pub set_headers: HeadersView,
    pub remove_headers: Seq<Seq<char>>,
    pub status: Option<u16>,
    pub headers: HeadersView,
    pub body_base64: Option<Seq<char>>,
    pub reason: Option<Seq<char>>,
    pub milliseconds: Option<u64>,
}

/// The model of a [`HookReply`].
pub enum HookReplyView {
    Action(WireActionView),
    NotText,
    Failed,
}

/// The model of an [`Asking`].
pub enum AskingView {
    Decided(ActionView),
    Send,
}

/// The model of a [`WebSocketHookEngine`].
#[verifier::ext_equal]
pub struct EngineView {
    pub interceptor: Option<Registration>,
    pub observers: Seq<Registration>,
    pub sequence: u64,
    pub max_json_body_bytes: usize,
}

impl View for HookEvent {
    type V = HookEventView;

    open spec fn view(&self) -> HookEventView {
        HookEventView {
            message_type: self.message_type@,
            protocol_version: self.protocol_version,
            request_id: self.request_id@,
            phase: self.phase,
            event: self.event@,
            body_base64: text::opt_text(self.body_base64),
        }
    }
}

/// The model of a body that may be absent.
pub open spec fn opt_body(body: Option<Vec<u8>>) -> Option<Seq<u8>> {
    match body {
        Some(bytes) => Some(bytes@),
        None => None,
    }
}

impl View for InterceptionAction {
    type V = ActionView;

    open spec fn view(&self) -> ActionView {
        match *self {
            InterceptionAction::Continue => ActionView::Continue,
            InterceptionAction::Drop { reason } => ActionView::Drop {
                reason: text::opt_text(reason),
            },
            InterceptionAction::Respond { status, headers, body } => ActionView::Respond {
                status,
                headers: headers@,
                body: body@,
            },
            InterceptionAction::Modify { set_headers, remove_headers, body } =>
            ActionView::Modify {
                set_headers: set_headers@,
                remove_headers: text::texts(remove_headers@),
                body: opt_body(body),
            },
            InterceptionAction::Delay { milliseconds } => ActionView::Delay { milliseconds },
        }
    }
}

impl View for WireAction {
    type V = WireActionView;

    open spec fn view(&self) -> WireActionView {
        WireActionView {
            message_type: self.message_type@,
            request_id: self.request_id@,
            action: self.action@,
            set_headers: self.set_headers@,
            remove_headers: text::texts(self.remove_headers@),
            status: self.status,
            headers: self.headers@,
            body_base64: text::opt_text(self.body_base64),
            reason: text::opt_text(self.reason),
            milliseconds: self.milliseconds,
        }
    }
}

impl View for HookReply {
    type V = HookReplyView;

    open spec fn view(&self) -> HookReplyView {
        match *self {
            HookReply::Action(action) => HookReplyView::Action(action@),
            HookReply::NotText => HookReplyView::NotText,
            HookReply::Failed => HookReplyView::Failed,
        }
    }
}

impl View for Asking {
    type V = AskingView;

    open spec fn view(&self) -> AskingView {
        match *self {
            Asking::Decided(action) => AskingView::Decided(action@),
            Asking::Send => AskingView::Send,
        }
    }
}

impl View for WebSocketHookEngine {
    type V = EngineView;

    open spec fn view(&self) -> EngineView {
        EngineView {
            interceptor: self.interceptor,
            observers: self.observers@,
            sequence: self.sequence,
            max_json_body_bytes: self.max_json_body_bytes,
        }
    }
}

/// The model of an action that may be absent.
pub open spec fn opt_action(action: Option<InterceptionAction>) -> Option<ActionView> {
    match action {
        Some(a) => Some(a@),
        None => None,
    }
}

// ---------------------------------------------------------------------------------------------
// Events
// ---------------------------------------------------------------------------------------------

/// The message about an event with an encoded body.
pub open spec fn event_message(
    request_id: Seq<char>,
    phase: HookPhase,
    event: events::TrafficEventView,
    body_base64: Option<Seq<char>>,
) -> HookEventView {
    HookEventView {
        message_type: "event"@,
        protocol_version: HOOK_PROTOCOL_VERSION,
        request_id,
        phase,
        event,
        body_base64,
    }
}

impl HookEvent {
    /// The message about an event; a body is encoded in base64.
    pub fn new(
        request_id: String,
        phase: HookPhase,
        event: TrafficEvent,
        body: Option<&[u8]>,
    ) -> (r: Self)
        requires
            body matches Some(bytes) ==> 4 * ((bytes@.len() + 2) / 3) <= isize::MAX,
        ensures
            r@ == event_message(
                request_id@,
                phase,
                event@,
                match body {
                    Some(bytes) => Some(outside::base64_text(bytes@)),
                    None => None,
                },
            ),
            body matches Some(bytes) ==> outside::base64_bytes(outside::base64_text(bytes@))
                == Some(bytes@),
    {
        let encoded = match body {
            Some(bytes) => Some(outside::base64_encode(bytes)),
            None => None,
        };
        HookEvent::with_encoded_body(request_id, phase, event, encoded)
    }

    /// The message about an event with a body that is encoded already.
    pub fn with_encoded_body(
        request_id: String,
        phase: HookPhase,
        event: TrafficEvent,
        body_base64: Option<String>,
    ) -> (r: Self)
        ensures
            r@ == event_message(request_id@, phase, event@, text::opt_text(body_base64)),
    {
        HookEvent {
            message_type: "event",
            protocol_version: HOOK_PROTOCOL_VERSION,
            request_id,
            phase,
            event,
            body_base64,
        }
    }
}

// ---------------------------------------------------------------------------------------------
// Actions
// ---------------------------------------------------------------------------------------------

/// What an action asks for, given its decoded body; nothing where its name is unknown.
pub open spec fn interpreted(action: WireActionView, body: Option<Seq<u8>>) -> Option<ActionView> {
    if action.action == "continue"@ {
        Some(ActionView::Continue)
    } else if action.action == "modify"@ {
        Some(
            ActionView::Modify {
                set_headers: action.set_headers,
                remove_headers: action.remove_headers,
                body,
            },
        )
    } else if action.action == "drop"@ {
        Some(ActionView::Drop { reason: action.reason })
    } else if action.action == "respond"@ {
        Some(
            ActionView::Respond {
                status: action.status,
                headers: if action.headers == Map::<Seq<char>, Seq<char>>::empty() {
                    action.set_headers
                } else {
                    action.headers
                },
                body: match body {
                    Some(bytes) => bytes,
                    None => Seq::empty(),
                },
            },
        )
    } else if action.action == "delay"@ {
        Some(
            ActionView::Delay {
                milliseconds: match action.milliseconds {
                    Some(n) => n,
                    None => 0,
                },
            },
        )
    } else {
        None
    }
}

/// What a message asks for; nothing where it is no action or its body is no base64.
pub open spec fn action_of(action: WireActionView) -> Option<ActionView> {
    if action.message_type != "action"@ {
        None
    } else {
        match action.body_base64 {
            None => interpreted(action, None),
            Some(encoded) => match outside::base64_bytes(encoded) {
                Some(bytes) => interpreted(action, Some(bytes)),
                None => None,
            },
        }
    }
}

impl Default for InterceptionAction {
    /// Traffic continues.
    fn default() -> (r: Self)
        ensures
            r@ == ActionView::Continue,
    {
        InterceptionAction::Continue
    }
}

impl AllowAll {
    /// Lets traffic continue.
    pub fn decide(&self) -> (r: InterceptionAction)
        ensures
            r@ == ActionView::Continue,
    {
        InterceptionAction::Continue
    }

    /// Needs no bodies.
    pub fn wants_json_bodies(&self) -> (r: bool)
        ensures
            !r,
    {
        false
    }
}

/// Interprets an action whose body is decoded.
pub fn interpret_action(action: WireAction, body: Option<Vec<u8>>) -> (r: Option<
    InterceptionAction,
>)
    ensures
        opt_action(r) == interpreted(action@, opt_body(body)),
{
    let name = action.action.as_str();
    if text::text_eq(name, "continue") {
        Some(InterceptionAction::Continue)
    } else if text::text_eq(name, "modify") {
        Some(
            InterceptionAction::Modify {
                set_headers: action.set_headers,
                remove_headers: action.remove_headers,
                body,
            },
        )
    } else if text::text_eq(name, "drop") {
        Some(InterceptionAction::Drop { reason: action.reason })
    } else if text::text_eq(name, "respond") {
        let headers = if action.headers.is_empty() {
            action.set_headers
        } else {
            action.headers
        };
        let bytes = match body {
            Some(bytes) => bytes,
            None => Vec::new(),
        };
        Some(InterceptionAction::Respond { status: action.status, headers, body: bytes })
    } else if text::text_eq(name, "delay") {
        Some(
            InterceptionAction::Delay {
                milliseconds: match action.milliseconds {
                    Some(n) => n,
                    None => 0,
                },
            },
        )
    } else {
        None
    }
}

// ---------------------------------------------------------------------------------------------
// Registration
// ---------------------------------------------------------------------------------------------

/// What a registration leads to.
pub open spec fn registration_of(
    message_type: Seq<char>,
    protocol_version: u8,
    role: Seq<char>,
    body_mode: Option<Seq<char>>,
) -> Result<Registration, RegistrationError> {
    if message_type != "register"@ || protocol_version != HOOK_PROTOCOL_VERSION {
        Err(RegistrationError::Unsupported)
    } else if role == "observe"@ {
        Ok(Registration { role: HookRole::Observe, json_bodies: body_mode == Some("json"@) })
    } else if role == "intercept"@ {
        Ok(Registration { role: HookRole::Intercept, json_bodies: body_mode == Some("json"@) })
    } else {
        Err(RegistrationError::UnknownRole)
    }
}

/// The role of a hook that names none.
pub fn default_role() -> (r: String)
    ensures
        r@ == "intercept"@,
{
    "intercept".to_owned()
}

impl RegistrationError {
    /// The error in words.
    pub open spec fn spec_message(self) -> Seq<char> {
        match self {
            RegistrationError::Unsupported => "unsupported hook registration"@,
            RegistrationError::UnknownRole => "role must be 'intercept' or 'observe'"@,
        }
    }

    /// Says the error in words.
    pub fn message(self) -> (r: String)
        ensures
            r@ == self.spec_message(),
    {
        match self {
            RegistrationError::Unsupported => "unsupported hook registration".to_owned(),
            RegistrationError::UnknownRole => "role must be 'intercept' or 'observe'".to_owned(),
        }
    }
}

impl RegisterMessage {
    /// Accepts or refuses a registration.
    pub fn accept(&self) -> (r: Result<Registration, RegistrationError>)
        ensures
            r == registration_of(
                self.message_type@,
                self.protocol_version,
                self.role@,
                text::opt_text(self.body_mode),
            ),
    {
        if !text::text_eq(self.message_type.as_str(), "register") || self.protocol_version
            != HOOK_PROTOCOL_VERSION {
            return Err(RegistrationError::Unsupported);
        }
        let json_bodies = match &self.body_mode {
            Some(mode) => text::text_eq(mode.as_str(), "json"),
            None => false,
        };
        if text::text_eq(self.role.as_str(), "observe") {
            Ok(Registration { role: HookRole::Observe, json_bodies })
        } else if text::text_eq(self.role.as_str(), "intercept") {
            Ok(Registration { role: HookRole::Intercept, json_bodies })
        } else {
            Err(RegistrationError::UnknownRole)
        }
    }
}

impl Registration {
    /// The answer to this registration.
    pub fn acknowledge(&self) -> (r: RegisteredMessage)
        ensures
            r.message_type@ == "registered"@,
            r.protocol_version == HOOK_PROTOCOL_VERSION,
            r.role@ == (match self.role {
                HookRole::Intercept => "intercept"@,
                HookRole::Observe => "observe"@,
            }),
            r.body_mode@ == (if self.json_bodies {
                "json"@
            } else {
                "none"@
            }),
    {
        RegisteredMessage {
            message_type: "registered",
            protocol_version: HOOK_PROTOCOL_VERSION,
            role: match self.role {
                HookRole::Intercept => "intercept",
                HookRole::Observe => "observe",
            },
            body_mode: if self.json_bodies {
                "json"
            } else {
                "none"
            },
        }
    }
}

// ---------------------------------------------------------------------------------------------
// Decisions
// ---------------------------------------------------------------------------------------------

/// The identity of a request for a decision.
pub open spec fn request_id(sequence: u64) -> Seq<char> {
    "hook-"@ + text::decimal(sequence as nat)
}

/// The observers that took a message.
pub open spec fn kept_observers(observers: Seq<Registration>, taken: Seq<bool>) -> Seq<
    Registration,
>
    decreases observers.len(),
{
    if observers.len() == 0 {
        Seq::empty()
    } else if taken[observers.len() - 1] {
        kept_observers(observers.drop_last(), taken).push(observers.last())
    } else {
        kept_observers(observers.drop_last(), taken)
    }
}

/// Some hook wants JSON bodies.
pub open spec fn bodies_wanted(engine: EngineView) -> bool {
    ||| engine.interceptor matches Some(registration) && registration.json_bodies
    ||| exists|i: int| 0 <= i < engine.observers.len() && #[trigger] engine.observers[i].json_bodies
}

/// The decision that a reply gives, if it ends the wait for one. A valid action with the identity
/// of the request counts as it stands. An action with another identity and a message that is no
/// text are passed over. Everything else lets the traffic continue.
pub open spec fn settled(reply: HookReplyView, id: Seq<char>) -> Option<ActionView> {
    match reply {
        HookReplyView::Action(action) => if action.request_id == id {
            match action_of(action) {
                Some(a) => Some(a),
                None => Some(ActionView::Continue),
            }
        } else {
            None
        },
        HookReplyView::NotText => None,
        HookReplyView::Failed => Some(ActionView::Continue),
    }
}

/// The reply shows that the interceptor does not work.
pub open spec fn discredits(reply: HookReplyView, id: Seq<char>) -> bool {
    match reply {
        HookReplyView::Action(action) => action.request_id == id && action_of(action) is None,
        HookReplyView::NotText => false,
        HookReplyView::Failed => true,
    }
}

/// The engine after a reply.
pub open spec fn engine_after(engine: EngineView, reply: HookReplyView, id: Seq<char>) -> EngineView {
    if discredits(reply, id) {
        EngineView { interceptor: None, ..engine }
    } else {
        engine
    }
}

/// The engine with another hook: an observer besides the others, an interceptor in place of the
/// earlier one.
pub open spec fn registered(engine: EngineView, registration: Registration) -> EngineView {
    match registration.role {
        HookRole::Observe => EngineView {
            observers: engine.observers.push(registration),
            ..engine
        },
        HookRole::Intercept => EngineView { interceptor: Some(registration), ..engine },
    }
}

/// The engine with another request for a decision.
pub open spec fn begun(engine: EngineView) -> EngineView {
    EngineView { sequence: (engine.sequence + 1) as u64, ..engine }
}

/// The engine after a message, without the observers that did not take it.
pub open spec fn heard(engine: EngineView, taken: Seq<bool>) -> EngineView {
    EngineView { observers: kept_observers(engine.observers, taken), ..engine }
}

/// How a decision is reached: without an interceptor the traffic continues and nothing is sent.
pub open spec fn asked(engine: EngineView) -> AskingView {
    if engine.interceptor is None {
        AskingView::Decided(ActionView::Continue)
    } else {
        AskingView::Send
    }
}

impl WebSocketHookEngine {
    /// An engine without hooks.
    pub fn new(max_json_body_bytes: usize) -> (r: Self)
        ensures
            r@ == (EngineView {
                interceptor: None,
                observers: Seq::empty(),
                sequence: 0,
                max_json_body_bytes,
            }),
    {
        WebSocketHookEngine {
            interceptor: None,
            observers: Vec::new(),
            sequence: 0,
            max_json_body_bytes,
        }
    }

    /// How large a JSON body may be to be shown to hooks.
    pub fn max_json_body_bytes(&self) -> (r: usize)
        ensures
            r == self@.max_json_body_bytes,
    {
        self.max_json_body_bytes
    }

    /// Takes a hook on: an observer besides the others, an interceptor in place of the earlier
    /// one.
    pub fn register(&mut self, registration: Registration)
        ensures
            final(self)@ == registered(old(self)@, registration),
    {
        match registration.role {
            HookRole::Observe => {
                self.observers.push(registration);
            },
            HookRole::Intercept => {
                self.interceptor = Some(registration);
            },
        }
    }

    /// Says whether some hook wants JSON bodies.
    pub fn wants_json_bodies(&self) -> (r: bool)
        ensures
            r == bodies_wanted(self@),
    {
        if let Some(registration) = &self.interceptor {
            if registration.json_bodies {
                return true;
            }
        }
        let mut i: usize = 0;
        while i < self.observers.len()
            invariant
                i <= self.observers@.len(),
                self@.interceptor matches Some(registration) ==> !registration.json_bodies,
                forall|k: int| 0 <= k < i ==> !(#[trigger] self.observers@[k].json_bodies),
            decreases self.observers@.len() - i,
        {
            if self.observers[i].json_bodies {
                return true;
            }
            i += 1;
        }
        false
    }

    /// Starts a request for a decision and gives its identity.
    pub fn begin(&mut self) -> (r: String)
        requires
            old(self)@.sequence < u64::MAX,
        ensures
            final(self)@ == begun(old(self)@),
            r@ == request_id((old(self)@.sequence + 1) as u64),
    {
        self.sequence += 1;
        let mut id = "hook-".to_owned();
        text::push_decimal(&mut id, self.sequence as u128);
        id
    }

    /// Forgets the observers that did not take a message.
    pub fn retain_observers(&mut self, taken: &[bool])
        requires
            taken@.len() == old(self)@.observers.len(),
        ensures
            final(self)@ == heard(old(self)@, taken@),
    {
        let mut kept: Vec<Registration> = Vec::new();
        let ghost all = self.observers@;
        let mut i: usize = 0;
        assert(all.take(0) =~= Seq::empty());
        while i < self.observers.len()
            invariant
                i <= self.observers@.len(),
                all == self.observers@,
                taken@.len() == all.len(),
                kept@ == kept_observers(all.take(i as int), taken@),
            decreases self.observers@.len() - i,
        {
            assert(all.take(i + 1).drop_last() =~= all.take(i as int));
            if taken[i] {
                kept.push(self.observers[i]);
            }
            i += 1;
        }
        assert(all.take(i as int) =~= all);
        self.observers = kept;
    }

    /// Says how a decision is reached: by the interceptor, or without one at once.
    pub fn ask(&self) -> (r: Asking)
        ensures
            r@ == asked(self@),
    {
        match self.interceptor {
            Some(_) => Asking::Send,
            None => Asking::Decided(InterceptionAction::Continue),
        }
    }

    /// Reads an action.
    pub fn parse_action(action: WireAction) -> (r: Option<InterceptionAction>)
        ensures
            opt_action(r) == action_of(action@),
    {
        if !text::text_eq(action.message_type.as_str(), "action") {
            return None;
        }
        let body = match &action.body_base64 {
            Some(encoded) => match outside::base64_decode(encoded.as_str()) {
                Some(bytes) => Some(bytes),
                None => {
                    return None;
                },
            },
            None => None,
        };
        interpret_action(action, body)
    }

    /// Takes a reply to the request with the given identity. Gives the decision once there is one;
    /// an interceptor that does not work is forgotten.
    pub fn settle(&mut self, reply: HookReply, id: &str) -> (r: Option<InterceptionAction>)
        ensures
            opt_action(r) == settled(reply@, id@),
            final(self)@ == engine_after(old(self)@, reply@, id@),
    {
        match reply {
            HookReply::Action(action) => {
                if !text::text_eq(action.request_id.as_str(), id) {
                    return None;
                }
                match WebSocketHookEngine::parse_action(action) {
                    Some(decision) => Some(decision),
                    None => {
                        self.interceptor = None;
                        Some(InterceptionAction::Continue)
                    },
                }
            },
            HookReply::NotText => None,
            HookReply::Failed => {
                self.interceptor = None;
                Some(InterceptionAction::Continue)
            },
        }
    }
}

// ---------------------------------------------------------------------------------------------
// Laws
// ---------------------------------------------------------------------------------------------

/// A reply that is not a valid action for the request never alters traffic: it is passed over, or
/// the traffic continues and the interceptor is forgotten.
pub proof fn replies_fail_open(engine: EngineView, reply: HookReplyView, id: Seq<char>)
    requires
        !(reply matches HookReplyView::Action(action) && action.request_id == id && action_of(
            action,
        ) is Some),
    ensures
        settled(reply, id) is None || settled(reply, id) == Some(ActionView::Continue),
        settled(reply, id) is None ==> engine_after(engine, reply, id) == engine,
        settled(reply, id) is Some ==> engine_after(engine, reply, id).interceptor is None,
{
}

/// What can happen to an engine.
pub enum EngineEventView {
    /// A decision is asked for.
    Begun,
    /// Observers were sent a message, which some of them took.
    Heard(Seq<bool>),
    /// A reply to the request with the given identity.
    Replied(HookReplyView, Seq<char>),
    /// A hook registers.
    Registered(Registration),
}

/// The engine after an event.
pub open spec fn engine_stepped(engine: EngineView, event: EngineEventView) -> EngineView {
    match event {
        EngineEventView::Begun => begun(engine),
        EngineEventView::Heard(taken) => heard(engine, taken),
        EngineEventView::Replied(reply, id) => engine_after(engine, reply, id),
        EngineEventView::Registered(registration) => registered(engine, registration),
    }
}

/// The engine after one event after another.
pub open spec fn engine_run(engine: EngineView, events: Seq<EngineEventView>) -> EngineView
    decreases events.len(),
{
    if events.len() == 0 {
        engine
    } else {
        engine_stepped(engine_run(engine, events.drop_last()), events.last())
    }
}

/// An interceptor registers.
pub open spec fn intercepts(event: EngineEventView) -> bool {
    event matches EngineEventView::Registered(registration) && registration.role
        == HookRole::Intercept
}

/// Without an interceptor every decision is to continue, with nothing sent, whatever happens until
/// an interceptor registers.
pub proof fn nobody_is_asked_before_registering(engine: EngineView, events: Seq<EngineEventView>)
    requires
        engine.interceptor is None,
        forall|i: int| 0 <= i < events.len() ==> !intercepts(#[trigger] events[i]),
    ensures
        engine_run(engine, events).interceptor is None,
        asked(engine_run(engine, events)) == AskingView::Decided(ActionView::Continue),
    decreases events.len(),
{
    if events.len() > 0 {
        let front = events.drop_last();
        assert forall|i: int| 0 <= i < front.len() implies !intercepts(#[trigger] front[i]) by {
            assert(front[i] == events[i]);
        }
        nobody_is_asked_before_registering(engine, front);
        assert(!intercepts(events[events.len() - 1]));
    }
}

/// An interceptor that disconnects, sends what is no valid action for the request, or does not
/// answer in time lets the traffic continue and is forgotten: until another one registers, every
/// further decision is to continue, with nothing sent. An interceptor that registers is asked.
pub proof fn broken_interceptors_are_not_asked_again(
    engine: EngineView,
    reply: HookReplyView,
    id: Seq<char>,
    events: Seq<EngineEventView>,
    registration: Registration,
)
    requires
        discredits(reply, id),
        forall|i: int| 0 <= i < events.len() ==> !intercepts(#[trigger] events[i]),
        registration.role == HookRole::Intercept,
    ensures
        settled(reply, id) == Some(ActionView::Continue),
        ({
            let after = engine_run(engine_after(engine, reply, id), events);
            &&& asked(after) == AskingView::Decided(ActionView::Continue)
            &&& asked(registered(after, registration)) == AskingView::Send
        }),
{
    nobody_is_asked_before_registering(engine_after(engine, reply, id), events);
}

/// Only an action with one of the five names asks for anything.
pub proof fn unknown_actions_are_invalid(action: WireActionView)
    requires
        action.action != "continue"@,
        action.action != "modify"@,
        action.action != "drop"@,
        action.action != "respond"@,
        action.action != "delay"@,
    ensures
        action_of(action) is None,
{
}

/// A body that a hook sends back as it was shown comes back as the same bytes.
pub proof fn bodies_survive_the_round_trip(action: WireActionView, shown: Seq<u8>)
    requires
        outside::base64_bytes(outside::base64_text(shown)) == Some(shown),
        action.message_type == "action"@,
        action.action == "modify"@,
        action.body_base64 == Some(outside::base64_text(shown)),
    ensures
        action_of(action) == Some(
            ActionView::Modify {
                set_headers: action.set_headers,
                remove_headers: action.remove_headers,
                body: Some(shown),
            },
        ),
{
    reveal_strlit("modify");
    reveal_strlit("continue");
    assert("modify"@.len() != "continue"@.len());
}

/// An action with the identity of another request is passed over and costs the interceptor
/// nothing.
pub proof fn stale_actions_are_passed_over(
    engine: EngineView,
    action: WireActionView,
    id: Seq<char>,
)
    requires
        action.request_id != id,
    ensures
        settled(HookReplyView::Action(action), id) is None,
        engine_after(engine, HookReplyView::Action(action), id) == engine,
{
}

} // verus!
