//! Promises about the exchanges of a proxied connection: what a request or a response that was
//! read leads to, decision by decision.
use crate::events;
use crate::events::Direction;
use crate::hooks;
use crate::hooks::HookPhase;
use crate::parsers::http1;
use crate::proxy::framing;
use crate::proxy::framing::Framing;
use crate::proxy::message;
use crate::proxy::session;
use crate::proxy::session::{EffectView, InputView, PartiesView, Session, Side, StateView};
use crate::text;
use vstd::prelude::*;

verus! {

/// Headers differ from others as a modification asks: each name that is set, in lower case, has
/// the value given for it, unless two spellings of the name are set; no other name that is removed
/// is left; and every other header is there as before.
pub open spec fn changed_as_asked(
    before: Map<Seq<char>, Seq<char>>,
    set: Map<Seq<char>, Seq<char>>,
    remove: Seq<Seq<char>>,
    after: Map<Seq<char>, Seq<char>>,
) -> bool {
    &&& forall|name: Seq<char>| #[trigger]
        set.contains_key(name) ==> {
            &&& after.contains_key(text::lower(name))
            &&& (forall|other: Seq<char>| #[trigger]
                set.contains_key(other) && other != name ==> text::lower(other) != text::lower(
                    name,
                )) ==> after[text::lower(name)] == set[name]
        }
    &&& forall|i: int|
        0 <= i < remove.len() && !(exists|name: Seq<char>| #[trigger]
            set.contains_key(name) && text::lower(name) == text::lower(remove[i]))
            ==> !after.contains_key(text::lower(#[trigger] remove[i]))
    &&& forall|key: Seq<char>|
        !(exists|name: Seq<char>| #[trigger] set.contains_key(name) && text::lower(name) == key)
            && !(exists|i: int| 0 <= i < remove.len() && text::lower(#[trigger] remove[i]) == key)
            ==> {
            &&& #[trigger] after.contains_key(key) == before.contains_key(key)
            &&& before.contains_key(key) ==> after[key] == before[key]
        }
}

/// Headers are others with the stated length of a body in place of any other framing.
pub open spec fn framed_for(
    before: Map<Seq<char>, Seq<char>>,
    length: nat,
    after: Map<Seq<char>, Seq<char>>,
) -> bool {
    &&& after.contains_key("content-length"@)
    &&& after["content-length"@] == text::decimal(length)
    &&& !after.contains_key("transfer-encoding"@)
    &&& forall|key: Seq<char>|
        key != "content-length"@ && key != "transfer-encoding"@ ==> {
            &&& #[trigger] after.contains_key(key) == before.contains_key(key)
            &&& before.contains_key(key) ==> after[key] == before[key]
        }
}

/// The headers after a modification are changed as it asks.
proof fn lemma_modified(
    before: http1::HeadersView,
    set: http1::HeadersView,
    remove: Seq<Seq<char>>,
)
    requires
        set.dom().finite(),
    ensures
        changed_as_asked(before, set, remove, message::modified(before, set, remove)),
{
    let after = message::modified(before, set, remove);
    assert forall|name: Seq<char>| #[trigger] set.contains_key(name) implies {
        &&& after.contains_key(text::lower(name))
        &&& (forall|other: Seq<char>| #[trigger]
            set.contains_key(other) && other != name ==> text::lower(other) != text::lower(name))
            ==> after[text::lower(name)] == set[name]
    } by {
        message::modifications_ignore_case(before, set, remove, text::lower(name));
    }
    assert forall|i: int|
        0 <= i < remove.len() && !(exists|name: Seq<char>| #[trigger]
            set.contains_key(name) && text::lower(name) == text::lower(
                remove[i],
            )) implies !after.contains_key(text::lower(#[trigger] remove[i])) by {
        message::modifications_ignore_case(before, set, remove, text::lower(remove[i]));
    }
    assert forall|key: Seq<char>|
        !(exists|name: Seq<char>| #[trigger] set.contains_key(name) && text::lower(name) == key)
            && !(exists|i: int|
            0 <= i < remove.len() && text::lower(#[trigger] remove[i]) == key) implies {
        &&& #[trigger] after.contains_key(key) == before.contains_key(key)
        &&& before.contains_key(key) ==> after[key] == before[key]
    } by {
        message::modifications_ignore_case(before, set, remove, key);
    }
}

/// A modification of the head of a request is carried out: unless the body is wanted, what is
/// written to the upstream peer is a head whose method, target and version are those of the
/// request that was read, and whose headers are those of the request changed as the modification
/// asks. The body follows as it comes, and the response is awaited.
pub proof fn modified_requests_are_forwarded(
    p: PartiesView,
    request: http1::RequestHeadView,
    set_headers: http1::HeadersView,
    remove_headers: Seq<Seq<char>>,
    body: Option<Seq<u8>>,
)
    requires
        set_headers.dom().finite(),
    ensures
        ({
            let decided = session::stepped(
                p,
                StateView::DecideRequest { request },
                InputView::Decision(
                    hooks::ActionView::Modify { set_headers, remove_headers, body },
                ),
            );
            let asked = session::stepped(p, decided.state, InputView::WantsJson(false));
            &&& decided.effects == seq![EffectView::AskJson]
            &&& decided.state matches StateView::AskRequest { request: head, closes } && {
                &&& head.method == request.method
                &&& head.target == request.target
                &&& head.version == request.version
                &&& changed_as_asked(request.headers, set_headers, remove_headers, head.headers)
                &&& closes == message::says_close(request.headers)
                &&& asked.state == StateView::AwaitResponse { closes }
                &&& asked.effects == seq![
                    EffectView::Write(
                        Side::Upstream,
                        vstd::utf8::encode_utf8(message::request_text(head)),
                    ),
                    EffectView::Relay(Side::Client, framing::request_framing(head.headers)),
                    EffectView::ReadHead(Side::Upstream),
                ]
            }
        }),
{
    lemma_modified(request.headers, set_headers, remove_headers);
    assert(Seq::<EffectView>::empty().push(EffectView::AskJson) =~= seq![EffectView::AskJson]);
}

/// A modification of the head of a response is carried out: unless the body is wanted, what is
/// written to the client is a head whose status, reason and version are those of the response that
/// was read, and whose headers are those of the response changed as the modification asks. The
/// body follows as it comes.
pub proof fn modified_responses_are_forwarded(
    p: PartiesView,
    response: http1::ResponseHeadView,
    closes: bool,
    set_headers: http1::HeadersView,
    remove_headers: Seq<Seq<char>>,
    body: Option<Seq<u8>>,
)
    requires
        set_headers.dom().finite(),
    ensures
        ({
            let decided = session::stepped(
                p,
                StateView::DecideResponse { response, closes },
                InputView::Decision(
                    hooks::ActionView::Modify { set_headers, remove_headers, body },
                ),
            );
            let asked = session::stepped(p, decided.state, InputView::WantsJson(false));
            &&& decided.effects == seq![EffectView::AskJson]
            &&& decided.state matches StateView::AskResponse { response: head, closes: last } && {
                &&& head.status == response.status
                &&& head.reason == response.reason
                &&& head.version == response.version
                &&& changed_as_asked(response.headers, set_headers, remove_headers, head.headers)
                &&& last == (closes || message::says_close(head.headers))
                &&& asked.effects.len() >= 2
                &&& asked.effects[0] == EffectView::Write(
                    Side::Client,
                    vstd::utf8::encode_utf8(message::response_text(head)),
                )
                &&& asked.effects[1] == EffectView::Relay(
                    Side::Upstream,
                    framing::response_framing(head),
                )
            }
        }),
{
    lemma_modified(response.headers, set_headers, remove_headers);
    assert(Seq::<EffectView>::empty().push(EffectView::AskJson) =~= seq![EffectView::AskJson]);
}

/// A request whose body the hooks have seen is sent as one piece. Where they go on, it is the head
/// as it stands and the bytes that were read; where they modify it, the head is changed as they
/// ask and states the length of the body, and the body is the given one or else the bytes that
/// were read.
pub proof fn shown_requests_are_forwarded(
    p: PartiesView,
    request: http1::RequestHeadView,
    body: Seq<u8>,
    closes: bool,
    set_headers: http1::HeadersView,
    remove_headers: Seq<Seq<char>>,
    given: Option<Seq<u8>>,
)
    requires
        set_headers.dom().finite(),
    ensures
        ({
            let state = StateView::DecideRequestBody { request, body, closes };
            let kept = session::stepped(
                p,
                state,
                InputView::Decision(hooks::ActionView::Continue),
            );
            &&& kept.state == StateView::AwaitResponse { closes }
            &&& kept.effects == seq![
                EffectView::Write(
                    Side::Upstream,
                    vstd::utf8::encode_utf8(message::request_text(request)) + body,
                ),
                EffectView::ReadHead(Side::Upstream),
            ]
        }),
        exists|head: http1::RequestHeadView, headers: http1::HeadersView| {
            let state = StateView::DecideRequestBody { request, body, closes };
            let sent = match given {
                Some(bytes) => bytes,
                None => body,
            };
            let changed = session::stepped(
                p,
                state,
                InputView::Decision(
                    hooks::ActionView::Modify { set_headers, remove_headers, body: given },
                ),
            );
            &&& head.method == request.method
            &&& head.target == request.target
            &&& head.version == request.version
            &&& #[trigger] changed_as_asked(request.headers, set_headers, remove_headers, headers)
            &&& framed_for(headers, sent.len(), head.headers)
            &&& changed.state == StateView::AwaitResponse { closes }
            &&& changed.effects == seq![
                EffectView::Write(
                    Side::Upstream,
                    vstd::utf8::encode_utf8(#[trigger] message::request_text(head)) + sent,
                ),
                EffectView::ReadHead(Side::Upstream),
            ]
        },
{
    let state = StateView::DecideRequestBody { request, body, closes };
    let kept = session::stepped(p, state, InputView::Decision(hooks::ActionView::Continue));
    assert(kept.effects =~= seq![
        EffectView::Write(
            Side::Upstream,
            vstd::utf8::encode_utf8(message::request_text(request)) + body,
        ),
        EffectView::ReadHead(Side::Upstream),
    ]);
    let sent = match given {
        Some(bytes) => bytes,
        None => body,
    };
    let headers = message::modified(request.headers, set_headers, remove_headers);
    let head = http1::RequestHeadView {
        headers: message::fixed_length_headers(headers, sent.len()),
        ..request
    };
    lemma_modified(request.headers, set_headers, remove_headers);
    lemma_framed(headers, sent.len());
    let changed = session::stepped(
        p,
        state,
        InputView::Decision(hooks::ActionView::Modify { set_headers, remove_headers, body: given }),
    );
    assert(changed.effects =~= seq![
        EffectView::Write(
            Side::Upstream,
            vstd::utf8::encode_utf8(message::request_text(head)) + sent,
        ),
        EffectView::ReadHead(Side::Upstream),
    ]);
}

/// Headers for a body of a fixed length are framed for it.
proof fn lemma_framed(before: http1::HeadersView, length: nat)
    ensures
        framed_for(before, length, message::fixed_length_headers(before, length)),
{
    reveal_strlit("content-length");
    reveal_strlit("transfer-encoding");
    assert("content-length"@.len() != "transfer-encoding"@.len());
}

/// A response whose body the hooks have seen is sent as one piece, as a request is, and the
/// exchange is complete.
pub proof fn shown_responses_are_forwarded(
    p: PartiesView,
    response: http1::ResponseHeadView,
    body: Seq<u8>,
    closes: bool,
    set_headers: http1::HeadersView,
    remove_headers: Seq<Seq<char>>,
    given: Option<Seq<u8>>,
)
    requires
        set_headers.dom().finite(),
    ensures
        ({
            let state = StateView::DecideResponseBody { response, body, closes };
            let kept = session::stepped(
                p,
                state,
                InputView::Decision(hooks::ActionView::Continue),
            );
            &&& kept.effects.len() >= 2
            &&& kept.effects[0] == EffectView::Write(
                Side::Client,
                vstd::utf8::encode_utf8(message::response_text(response)) + body,
            )
        }),
        exists|head: http1::ResponseHeadView, headers: http1::HeadersView| {
            let state = StateView::DecideResponseBody { response, body, closes };
            let sent = match given {
                Some(bytes) => bytes,
                None => body,
            };
            let changed = session::stepped(
                p,
                state,
                InputView::Decision(
                    hooks::ActionView::Modify { set_headers, remove_headers, body: given },
                ),
            );
            &&& head.status == response.status
            &&& head.reason == response.reason
            &&& head.version == response.version
            &&& #[trigger] changed_as_asked(response.headers, set_headers, remove_headers, headers)
            &&& framed_for(headers, sent.len(), head.headers)
            &&& changed.effects.len() >= 2
            &&& changed.effects[0] == EffectView::Write(
                Side::Client,
                vstd::utf8::encode_utf8(#[trigger] message::response_text(head)) + sent,
            )
        },
{
    let sent = match given {
        Some(bytes) => bytes,
        None => body,
    };
    let headers = message::modified(response.headers, set_headers, remove_headers);
    let head = http1::ResponseHeadView {
        headers: message::fixed_length_headers(headers, sent.len()),
        ..response
    };
    lemma_modified(response.headers, set_headers, remove_headers);
    lemma_framed(headers, sent.len());
    assert(head.status == response.status && head.reason == response.reason && head.version
        == response.version);
    assert(framed_for(headers, sent.len(), head.headers));
}

/// The connection is over: its end is reported and it is closed.
pub open spec fn reports_the_end(p: PartiesView, effects: Seq<EffectView>) -> bool {
    &&& effects.len() >= 2
    &&& effects[effects.len() - 1] == EffectView::Close
    &&& effects[effects.len() - 2] == EffectView::Emit(
        events::EventDraftView {
            connection_id: p.id,
            direction: Direction::Unknown,
            source: p.source,
            destination: p.destination,
            kind: events::EventKindView::ConnectionClosed { reason: None },
            attributes: Map::empty(),
        },
    )
}

/// After a response was passed on as it came, the connection is used as a tunnel and ends where
/// the status switches protocols; it ends where one of the two heads asked for that or where the
/// body of the response ends with the connection; and otherwise the next request is read from the
/// client.
pub proof fn relayed_exchanges_are_completed(
    p: PartiesView,
    response: http1::ResponseHeadView,
    closes: bool,
)
    ensures
        ({
            let asked = session::stepped(
                p,
                StateView::AskResponse { response, closes },
                InputView::WantsJson(false),
            );
            let until_close = framing::response_framing(response) == Framing::UntilClose;
            if response.status == 101 {
                &&& asked.state == StateView::Finished
                &&& asked.effects.len() == 5
                &&& asked.effects[2] == EffectView::Tunnel
                &&& reports_the_end(p, asked.effects)
            } else if closes || until_close {
                &&& asked.state == StateView::Finished
                &&& asked.effects.len() == 4
                &&& reports_the_end(p, asked.effects)
            } else {
                &&& asked.state == StateView::AwaitRequest
                &&& asked.effects.len() == 3
                &&& asked.effects[2] == EffectView::ReadHead(Side::Client)
            }
        }),
{
}

/// After a response was sent as one piece, the connection goes on or ends as after a relayed one,
/// except that how the body would have been framed no longer matters.
pub proof fn sent_exchanges_are_completed(
    p: PartiesView,
    response: http1::ResponseHeadView,
    body: Seq<u8>,
    closes: bool,
)
    ensures
        ({
            let sent = session::stepped(
                p,
                StateView::DecideResponseBody { response, body, closes },
                InputView::Decision(hooks::ActionView::Continue),
            );
            if response.status == 101 {
                &&& sent.state == StateView::Finished
                &&& sent.effects.len() == 4
                &&& sent.effects[1] == EffectView::Tunnel
                &&& reports_the_end(p, sent.effects)
            } else if closes {
                &&& sent.state == StateView::Finished
                &&& sent.effects.len() == 3
                &&& reports_the_end(p, sent.effects)
            } else {
                &&& sent.state == StateView::AwaitRequest
                &&& sent.effects.len() == 2
                &&& sent.effects[1] == EffectView::ReadHead(Side::Client)
            }
        }),
{
}

/// Headers ask for the end of the connection exactly where they hold a connection header that
/// says close, in whatever case.
pub proof fn closing_is_asked_for(headers: http1::HeadersView)
    ensures
        message::says_close(headers) == (headers.contains_key("connection"@) && text::lower(
            headers["connection"@],
        ) == seq!['c', 'l', 'o', 's', 'e']),
{
    reveal_strlit("close");
    assert("close"@ =~= seq!['c', 'l', 'o', 's', 'e']);
}

/// Whether the request asked for the end of the connection is remembered until its response has
/// been passed on, and the response can ask for it too.
pub proof fn closing_is_remembered(
    p: PartiesView,
    request: http1::RequestHeadView,
    response: http1::ResponseHeadView,
)
    ensures
        ({
            let decided = session::stepped(
                p,
                StateView::DecideRequest { request },
                InputView::Decision(hooks::ActionView::Continue),
            );
            let asked = session::stepped(p, decided.state, InputView::WantsJson(false));
            let answered = session::stepped(
                p,
                asked.state,
                InputView::Head(http1::HeadView::Response(response)),
            );
            let admitted = session::stepped(
                p,
                answered.state,
                InputView::Decision(hooks::ActionView::Continue),
            );
            let asks = message::says_close(request.headers);
            &&& asked.state == StateView::AwaitResponse { closes: asks }
            &&& answered.state == StateView::DecideResponse { response, closes: asks }
            &&& admitted.state == StateView::AskResponse {
                response,
                closes: asks || message::says_close(response.headers),
            }
        }),
{
}

/// A head that was read is shown to the hooks with an event that holds what the head says: for a
/// request from the source to the destination, and for a response the other way.
pub proof fn heads_are_shown(
    p: PartiesView,
    request: http1::RequestHeadView,
    response: http1::ResponseHeadView,
    closes: bool,
)
    ensures
        ({
            let onward = session::stepped(
                p,
                StateView::AwaitRequest,
                InputView::Head(http1::HeadView::Request(request)),
            );
            let back = session::stepped(
                p,
                StateView::AwaitResponse { closes },
                InputView::Head(http1::HeadView::Response(response)),
            );
            &&& onward.state == StateView::DecideRequest { request }
            &&& onward.effects == seq![
                EffectView::Decide {
                    phase: HookPhase::RequestHeaders,
                    event: events::EventDraftView {
                        connection_id: p.id,
                        direction: Direction::ClientToServer,
                        source: p.source,
                        destination: p.destination,
                        kind: events::EventKindView::HttpRequest {
                            method: request.method,
                            target: request.target,
                            version: request.version,
                            headers: request.headers,
                        },
                        attributes: Map::empty(),
                    },
                    body: None,
                },
            ]
            &&& back.state == StateView::DecideResponse { response, closes }
            &&& back.effects == seq![
                EffectView::Decide {
                    phase: HookPhase::ResponseHeaders,
                    event: events::EventDraftView {
                        connection_id: p.id,
                        direction: Direction::ServerToClient,
                        source: p.destination,
                        destination: p.source,
                        kind: events::EventKindView::HttpResponse {
                            status: response.status,
                            reason: response.reason,
                            headers: response.headers,
                        },
                        attributes: Map::empty(),
                    },
                    body: None,
                },
            ]
        }),
{
}

/// A body that was read is shown to the hooks with an event that holds its length and the type
/// that the headers state, and the head is kept for what follows.
pub proof fn bodies_are_shown(
    p: PartiesView,
    request: http1::RequestHeadView,
    response: http1::ResponseHeadView,
    body: Seq<u8>,
    closes: bool,
)
    requires
        body.len() <= usize::MAX,
    ensures
        ({
            let onward = session::stepped(
                p,
                StateView::ReadRequest { request, closes },
                InputView::Body(body),
            );
            let back = session::stepped(
                p,
                StateView::ReadResponse { response, closes },
                InputView::Body(body),
            );
            &&& onward.state == StateView::DecideRequestBody { request, body, closes }
            &&& onward.effects.len() == 1
            &&& onward.effects[0] matches EffectView::Decide { phase, event, body: shown } && {
                &&& phase == HookPhase::RequestBody
                &&& shown == Some(body)
                &&& event.connection_id == p.id
                &&& event.direction == Direction::ClientToServer
                &&& event.source == p.source
                &&& event.destination == p.destination
                &&& event.attributes == Map::<Seq<char>, bool>::empty()
                &&& event.kind matches events::EventKindView::HttpBody {
                    direction,
                    length,
                    content_type,
                } && direction == Direction::ClientToServer && length == body.len() && (
                content_type is Some == request.headers.contains_key("content-type"@)) && (
                content_type is Some ==> content_type == Some(request.headers["content-type"@]))
            }
            &&& back.state == StateView::DecideResponseBody { response, body, closes }
            &&& back.effects.len() == 1
            &&& back.effects[0] matches EffectView::Decide { phase, event, body: shown } && {
                &&& phase == HookPhase::ResponseBody
                &&& shown == Some(body)
                &&& event.connection_id == p.id
                &&& event.direction == Direction::ServerToClient
                &&& event.source == p.destination
                &&& event.destination == p.source
                &&& event.attributes == Map::<Seq<char>, bool>::empty()
                &&& event.kind matches events::EventKindView::HttpBody {
                    direction,
                    length,
                    content_type,
                } && direction == Direction::ServerToClient && length == body.len() && (
                content_type is Some == response.headers.contains_key("content-type"@)) && (
                content_type is Some ==> content_type == Some(response.headers["content-type"@]))
            }
        }),
{
}

/// A request that the hooks drop is read to its end, unless it was read already, and then the
/// connection ends.
pub proof fn dropped_requests_are_read_to_their_end(
    p: PartiesView,
    request: http1::RequestHeadView,
    closes: bool,
    reason: Option<Seq<char>>,
    read: Seq<u8>,
)
    ensures
        ({
            let drop = InputView::Decision(hooks::ActionView::Drop { reason });
            let early = session::stepped(p, StateView::DecideRequest { request }, drop);
            let late = session::stepped(
                p,
                StateView::DecideRequestBody { request, body: read, closes },
                drop,
            );
            &&& early.state == StateView::Finished
            &&& early.effects.len() == 3
            &&& early.effects[0] == EffectView::Drain(Side::Client, framing::request_framing(request.headers))
            &&& reports_the_end(p, early.effects)
            &&& late.state == StateView::Finished
            &&& late.effects.len() == 2
            &&& reports_the_end(p, late.effects)
        }),
{
}

/// A request that the hooks answer is read to its end, unless it was read already; the answer is
/// written to the client, with status 200 unless another is given, and the next request is read.
pub proof fn answered_requests_are_read_to_their_end(
    p: PartiesView,
    request: http1::RequestHeadView,
    closes: bool,
    status: Option<u16>,
    headers: http1::HeadersView,
    body: Seq<u8>,
    read: Seq<u8>,
)
    ensures
        ({
            let answer = InputView::Decision(hooks::ActionView::Respond { status, headers, body });
            let early = session::stepped(p, StateView::DecideRequest { request }, answer);
            let late = session::stepped(
                p,
                StateView::DecideRequestBody { request, body: read, closes },
                answer,
            );
            let code = match status {
                Some(code) => code,
                None => 200,
            };
            let head = message::replacement_head(code, headers, body.len());
            let reply = EffectView::Write(
                Side::Client,
                vstd::utf8::encode_utf8(message::response_text(head)) + body,
            );
            let next = EffectView::ReadHead(Side::Client);
            &&& early.state == StateView::AwaitRequest
            &&& early.effects == seq![EffectView::Drain(Side::Client, framing::request_framing(request.headers)), reply, next]
            &&& late.state == StateView::AwaitRequest
            &&& late.effects == seq![reply, next]
        }),
{
    let reply = EffectView::Write(
        Side::Client,
        session::given_response(status, headers, body),
    );
    let drain = EffectView::Drain(Side::Client, framing::request_framing(request.headers));
    let next = EffectView::ReadHead(Side::Client);
    assert(seq![drain, reply].push(next) =~= seq![drain, reply, next]);
    assert(seq![reply].push(next) =~= seq![reply, next]);
}

/// A response that the hooks drop is read to its end, unless it was read already, and then the
/// connection ends.
pub proof fn dropped_responses_are_read_to_their_end(
    p: PartiesView,
    response: http1::ResponseHeadView,
    closes: bool,
    reason: Option<Seq<char>>,
    read: Seq<u8>,
)
    ensures
        ({
            let drop = InputView::Decision(hooks::ActionView::Drop { reason });
            let early = session::stepped(p, StateView::DecideResponse { response, closes }, drop);
            let late = session::stepped(
                p,
                StateView::DecideResponseBody { response, body: read, closes },
                drop,
            );
            &&& early.state == StateView::Finished
            &&& early.effects.len() == 3
            &&& early.effects[0] == EffectView::Drain(Side::Upstream, framing::response_framing(response))
            &&& reports_the_end(p, early.effects)
            &&& late.state == StateView::Finished
            &&& late.effects.len() == 2
            &&& reports_the_end(p, late.effects)
        }),
{
}

/// A response that the hooks answer is read to its end, unless it was read already; the answer is
/// written to the client, with status 200 unless another is given, and the next request is read.
pub proof fn answered_responses_are_read_to_their_end(
    p: PartiesView,
    response: http1::ResponseHeadView,
    closes: bool,
    status: Option<u16>,
    headers: http1::HeadersView,
    body: Seq<u8>,
    read: Seq<u8>,
)
    ensures
        ({
            let answer = InputView::Decision(hooks::ActionView::Respond { status, headers, body });
            let early = session::stepped(p, StateView::DecideResponse { response, closes }, answer);
            let late = session::stepped(
                p,
                StateView::DecideResponseBody { response, body: read, closes },
                answer,
            );
            let code = match status {
                Some(code) => code,
                None => 200,
            };
            let head = message::replacement_head(code, headers, body.len());
            let reply = EffectView::Write(
                Side::Client,
                vstd::utf8::encode_utf8(message::response_text(head)) + body,
            );
            let next = EffectView::ReadHead(Side::Client);
            &&& early.state == StateView::AwaitRequest
            &&& early.effects == seq![EffectView::Drain(Side::Upstream, framing::response_framing(response)), reply, next]
            &&& late.state == StateView::AwaitRequest
            &&& late.effects == seq![reply, next]
        }),
{
    let reply = EffectView::Write(
        Side::Client,
        session::given_response(status, headers, body),
    );
    let drain = EffectView::Drain(Side::Upstream, framing::response_framing(response));
    let next = EffectView::ReadHead(Side::Client);
    assert(seq![drain, reply].push(next) =~= seq![drain, reply, next]);
    assert(seq![reply].push(next) =~= seq![reply, next]);
}

/// A connection is reported when it is opened, and then its first request is read; a first request
/// that was read and decided before is followed as any other.
pub proof fn opened_connections_are_reported(
    p: PartiesView,
    request: http1::RequestHeadView,
    action: hooks::ActionView,
)
    ensures
        ({
            let opened = EffectView::Emit(
                events::EventDraftView {
                    connection_id: p.id,
                    direction: Direction::ClientToServer,
                    source: p.source,
                    destination: p.destination,
                    kind: events::EventKindView::ConnectionOpened { transport: "tcp"@ },
                    attributes: Map::empty(),
                },
            );
            let fresh = session::started(p, None);
            let begun = session::started(p, Some((request, action)));
            let decided = session::stepped(
                p,
                StateView::DecideRequest { request },
                InputView::Decision(action),
            );
            &&& fresh.state == StateView::AwaitRequest
            &&& fresh.effects == seq![opened, EffectView::ReadHead(Side::Client)]
            &&& begun.state == decided.state
            &&& begun.effects == seq![opened] + decided.effects
        }),
{
    let opened = EffectView::Emit(session::opened_draft(p));
    assert(session::started(p, None).effects =~= seq![opened, EffectView::ReadHead(Side::Client)]);
}

/// A client that sends nothing more ends the connection; any other failure to read a head, a
/// response from the client and a request from the upstream peer break it, with the reason.
pub proof fn misplaced_heads_break_the_connection(
    p: PartiesView,
    request: http1::RequestHeadView,
    response: http1::ResponseHeadView,
    reason: Seq<char>,
    closes: bool,
)
    ensures
        ({
            let awaited = StateView::AwaitResponse { closes };
            let failed = session::stepped(p, StateView::AwaitRequest, InputView::HeadFailed(reason));
            let ended = exists|i: int|
                0 <= i && i + 3 <= reason.len() && #[trigger] reason.subrange(i, i + 3) == seq![
                    'E',
                    'O',
                    'F',
                ];
            &&& failed.state == StateView::Finished
            &&& ended ==> failed.effects.len() == 2 && reports_the_end(p, failed.effects)
            &&& !ended ==> failed.effects == seq![EffectView::Fail(reason)]
            &&& session::stepped(p, awaited, InputView::HeadFailed(reason)).effects == seq![
                EffectView::Fail(reason),
            ]
            &&& session::stepped(
                p,
                StateView::AwaitRequest,
                InputView::Head(http1::HeadView::Response(response)),
            ).effects == seq![EffectView::Fail("expected request"@)]
            &&& session::stepped(
                p,
                awaited,
                InputView::Head(http1::HeadView::Request(request)),
            ).effects == seq![EffectView::Fail("upstream sent a request"@)]
        }),
{
    reveal_strlit("EOF");
    assert("EOF"@ =~= seq!['E', 'O', 'F']);
}

/// A body that is wanted and may be shown is read before anything is passed on, as long as its
/// head states, and the head waits for it unchanged; one that may not be shown is passed on as
/// where none is wanted.
pub proof fn wanted_bodies_are_read_first(
    p: PartiesView,
    request: http1::RequestHeadView,
    response: http1::ResponseHeadView,
    closes: bool,
)
    ensures
        ({
            let onward = StateView::AskRequest { request, closes };
            let back = StateView::AskResponse { response, closes };
            let wanted = InputView::WantsJson(true);
            let unwanted = InputView::WantsJson(false);
            &&& match message::shown_length(request.headers, p.limit) {
                Some(n) => {
                    &&& session::stepped(p, onward, wanted).state == StateView::ReadRequest {
                        request,
                        closes,
                    }
                    &&& session::stepped(p, onward, wanted).effects == seq![
                        EffectView::ReadBody(Side::Client, n as usize),
                    ]
                },
                None => session::stepped(p, onward, wanted) == session::stepped(
                    p,
                    onward,
                    unwanted,
                ),
            }
            &&& match message::shown_length(response.headers, p.limit) {
                Some(n) => {
                    &&& session::stepped(p, back, wanted).state == StateView::ReadResponse {
                        response,
                        closes,
                    }
                    &&& session::stepped(p, back, wanted).effects == seq![
                        EffectView::ReadBody(Side::Upstream, n as usize),
                    ]
                },
                None => session::stepped(p, back, wanted) == session::stepped(p, back, unwanted),
            }
        }),
{
}

/// An input that answers nothing that was asked breaks the connection.
pub proof fn unexpected_inputs_break_the_connection(p: PartiesView, action: hooks::ActionView)
    ensures
        ({
            let decision = InputView::Decision(action);
            let wanted = InputView::WantsJson(true);
            let broken = seq![EffectView::Fail("unexpected reply"@)];
            &&& session::stepped(p, StateView::AwaitRequest, decision).effects == broken
            &&& session::stepped(p, StateView::AwaitRequest, wanted).effects == broken
            &&& session::stepped(p, StateView::Finished, decision).effects == broken
            &&& session::stepped(p, StateView::Finished, wanted).effects == broken
            &&& session::stepped(p, StateView::Finished, decision).state == StateView::Finished
        }),
{
}

/// What stays the same through a connection is what it was made with: its identity, its two
/// endpoints and how large a body may be that hooks are shown.
pub proof fn connections_keep_their_parties(session: Session)
    ensures
        session.parties().id == session.id@,
        session.parties().source.host == session.source.host@,
        session.parties().source.port == session.source.port,
        session.parties().destination.host == session.destination.host@,
        session.parties().destination.port == session.destination.port,
        session.parties().limit == session.max_hook_json_body_bytes,
{
}

} // verus!
