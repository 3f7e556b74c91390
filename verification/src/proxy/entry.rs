//! What the first request of a client leads to.
use crate::events;
use crate::events::{Direction, Endpoint, EventDraft, EventKind};
use crate::hooks;
use crate::hooks::InterceptionAction;
use crate::parsers::http1;
use crate::parsers::http1::{Head, RequestHead};
use crate::proxy::framing;
use crate::proxy::message;
use crate::proxy::message::ProxyError;
use crate::proxy::session;
use crate::proxy::session::{Effect, Side};
use crate::text;
use vstd::prelude::*;

verus! {

/// Between whom a connection is made.
#[derive(Debug)]
pub struct Route {
    pub id: String,
    pub source: Endpoint,
    pub destination: Endpoint,
}

/// What the first request of a client asks for.
#[derive(Debug)]
pub enum ClientPlan {
    /// A tunnel: record the event, connect, write [`established_reply`], and then pass everything
    /// on or, where the tunnel is intercepted, serve the requests inside.
    Tunnel { route: Route, event: EventDraft, intercepted: bool },
    /// A plain request: ask the hooks about the event and record it, before connecting.
    Request { route: Route, event: EventDraft, request: RequestHead },
}

/// What the decision about a first plain request leads to.
#[derive(Debug)]
pub enum FirstStep {
    /// Carry out the effects; nothing is connected.
    End(Vec<Effect>),
    /// Carry out the effects, connect, and serve the request under the given decision.
    Connect { effects: Vec<Effect>, action: InterceptionAction },
}

/// The model of a [`Route`].
pub struct RouteView {
    pub id: Seq<char>,
    pub source: events::EndpointView,
    pub destination: events::EndpointView,
}

/// The model of a [`ClientPlan`].
pub enum ClientPlanView {
    Tunnel { route: RouteView, event: events::EventDraftView, intercepted: bool },
    Request { route: RouteView, event: events::EventDraftView, request: http1::RequestHeadView },
}

/// The model of a [`FirstStep`].
pub enum FirstStepView {
    End(Seq<session::EffectView>),
    Connect { effects: Seq<session::EffectView>, action: hooks::ActionView },
}

impl View for Route {
    type V = RouteView;

    open spec fn view(&self) -> RouteView {
        RouteView { id: self.id@, source: self.source@, destination: self.destination@ }
    }
}

impl View for ClientPlan {
    type V = ClientPlanView;

    open spec fn view(&self) -> ClientPlanView {
        match *self {
            ClientPlan::Tunnel { route, event, intercepted } => ClientPlanView::Tunnel {
                route: route@,
                event: event@,
                intercepted,
            },
            ClientPlan::Request { route, event, request } => ClientPlanView::Request {
                route: route@,
                event: event@,
                request: request@,
            },
        }
    }
}

impl View for FirstStep {
    type V = FirstStepView;

    open spec fn view(&self) -> FirstStepView {
        match *self {
            FirstStep::End(effects) => FirstStepView::End(session::effect_views(effects@)),
            FirstStep::Connect { effects, action } => FirstStepView::Connect {
                effects: session::effect_views(effects@),
                action: action@,
            },
        }
    }
}

/// The route from a client to a host.
pub open spec fn route_to(
    peer: events::EndpointView,
    host: Seq<char>,
    port: u16,
) -> RouteView {
    let destination = events::EndpointView { host, port };
    RouteView { id: message::proxied_id(peer, destination), source: peer, destination }
}

/// The event about a tunnel.
pub open spec fn tunnel_draft(
    route: RouteView,
    authority: Seq<char>,
    intercepted: bool,
) -> events::EventDraftView {
    events::plain_draft(
        route.id,
        Direction::ClientToServer,
        route.source,
        route.destination,
        events::EventKindView::Tunnel { authority, intercepted },
    )
}

/// What the first head from a client asks for.
pub open spec fn client_plan(
    head: http1::HeadView,
    peer: events::EndpointView,
    mitm: bool,
) -> Result<ClientPlanView, ProxyError> {
    match head {
        http1::HeadView::Response(_) => Err(ProxyError::ClientSentResponse),
        http1::HeadView::Request(request) => if text::lower(request.method) == "connect"@ {
            match message::authority_of(request.target, 443) {
                Err(e) => Err(e),
                Ok((host, port)) => {
                    let route = route_to(peer, host, port);
                    Ok(
                        ClientPlanView::Tunnel {
                            route,
                            event: tunnel_draft(route, request.target, mitm),
                            intercepted: mitm,
                        },
                    )
                },
            }
        } else {
            match message::destination_of(request) {
                Err(e) => Err(e),
                Ok((host, port)) => {
                    let route = route_to(peer, host, port);
                    Ok(
                        ClientPlanView::Request {
                            route,
                            event: message::request_draft(
                                route.id,
                                route.source,
                                route.destination,
                                request,
                            ),
                            request,
                        },
                    )
                },
            }
        },
    }
}

/// What the decision about a first plain request leads to.
pub open spec fn first_step(
    request: http1::RequestHeadView,
    action: hooks::ActionView,
) -> FirstStepView {
    let drain = session::EffectView::Drain(
        Side::Client,
        framing::request_framing(request.headers),
    );
    match action {
        hooks::ActionView::Drop { reason } => FirstStepView::End(seq![drain]),
        hooks::ActionView::Respond { status, headers, body } => FirstStepView::End(
            seq![
                drain,
                session::EffectView::Write(
                    Side::Client,
                    session::given_response(status, headers, body),
                ),
            ],
        ),
        hooks::ActionView::Delay { milliseconds } => FirstStepView::Connect {
            effects: seq![session::EffectView::Sleep(milliseconds)],
            action: hooks::ActionView::Continue,
        },
        other => FirstStepView::Connect { effects: Seq::empty(), action: other },
    }
}

/// The model of a plan or an error.
pub open spec fn plan_model(r: Result<ClientPlan, ProxyError>) -> Result<
    ClientPlanView,
    ProxyError,
> {
    match r {
        Ok(plan) => Ok(plan@),
        Err(e) => Err(e),
    }
}

/// Refuses to intercept tunnels without an authority.
pub fn check_options(mitm: bool, has_authority: bool) -> (r: Result<(), ProxyError>)
    ensures
        r == (if mitm && !has_authority {
            Err::<(), ProxyError>(ProxyError::MissingAuthority)
        } else {
            Ok(())
        }),
{
    if mitm && !has_authority {
        Err(ProxyError::MissingAuthority)
    } else {
        Ok(())
    }
}

/// Makes the route from a client to a host.
fn make_route(peer: Endpoint, host: String, port: u16) -> (r: Route)
    ensures
        r@ == route_to(peer@, host@, port),
{
    let destination = Endpoint { host, port };
    let id = message::connection_id(&peer, &destination);
    Route { id, source: peer, destination }
}

/// Finds out what the first head from a client asks for.
pub fn plan_client(head: Head, peer: Endpoint, mitm: bool) -> (r: Result<ClientPlan, ProxyError>)
    ensures
        plan_model(r) == client_plan(head@, peer@, mitm),
{
    let request = match head {
        Head::Request(request) => request,
        Head::Response(_) => {
            return Err(ProxyError::ClientSentResponse);
        },
    };
    let method = text::lower_text(request.method.as_str());
    if text::text_eq(method.as_str(), "connect") {
        match message::authority(request.target.as_str(), 443) {
            Err(e) => Err(e),
            Ok((host, port)) => {
                let route = make_route(peer, host, port);
                let event = EventDraft::new(
                    route.id.clone(),
                    Direction::ClientToServer,
                    route.source.clone(),
                    route.destination.clone(),
                    EventKind::Tunnel { authority: request.target, intercepted: mitm },
                );
                Ok(ClientPlan::Tunnel { route, event, intercepted: mitm })
            },
        }
    } else {
        match message::request_destination(&request) {
            Err(e) => Err(e),
            Ok((host, port)) => {
                let route = make_route(peer, host, port);
                let event = message::request_event(
                    route.id.as_str(),
                    &route.source,
                    &route.destination,
                    &request,
                );
                Ok(ClientPlan::Request { route, event, request })
            },
        }
    }
}

/// The reply to a client whose tunnel is connected.
pub fn established_reply() -> (r: Vec<u8>)
    ensures
        r@ == vstd::utf8::encode_utf8(
            "HTTP/1.1 200 Connection Established\r\nProxy-Agent: netscope\r\n\r\n"@,
        ),
{
    vstd::slice::slice_to_vec(
        "HTTP/1.1 200 Connection Established\r\nProxy-Agent: netscope\r\n\r\n".as_bytes(),
    )
}

/// Follows the decision about a first plain request, before anything is connected.
pub fn decide_first(request: &RequestHead, action: InterceptionAction) -> (r: FirstStep)
    ensures
        r@ == first_step(request@, action@),
{
    let drain = Effect::Drain(Side::Client, framing::frame_request(&request.headers));
    match action {
        InterceptionAction::Drop { reason: _ } => FirstStep::End(session::one(drain)),
        InterceptionAction::Respond { status, headers, body } => FirstStep::End(
            session::two(drain, session::give_response(status, headers, body)),
        ),
        InterceptionAction::Delay { milliseconds } => FirstStep::Connect {
            effects: session::one(Effect::Sleep(milliseconds)),
            action: InterceptionAction::Continue,
        },
        other => FirstStep::Connect { effects: session::none(), action: other },
    }
}

// ---------------------------------------------------------------------------------------------
// Laws
// ---------------------------------------------------------------------------------------------

/// A hook that answers or drops a first plain request keeps the proxy from connecting: nothing is
/// done but reading from the client and, for an answer, writing it to the client.
pub proof fn first_answers_are_local(
    request: http1::RequestHeadView,
    action: hooks::ActionView,
)
    requires
        action is Respond || action is Drop,
    ensures
        first_step(request, action) matches FirstStepView::End(effects) && forall|i: int|
            0 <= i < effects.len() ==> !session::touches_upstream(#[trigger] effects[i]),
{
}

} // verus!
