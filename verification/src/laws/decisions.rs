//! Promises about hooks: what an action asks for, who registers as what, and who is asked.
use crate::events;
use crate::hooks;
use crate::hooks::{
    ActionView, EngineView, HookPhase, HookReplyView, HookRole, Registration, RegistrationError,
    WireActionView,
};
use crate::outside;
use crate::text;
use vstd::prelude::*;

verus! {

/// An action with a given name and no body, or a given body in base64.
pub open spec fn sends(action: WireActionView, name: Seq<char>, body: Option<Seq<u8>>) -> bool {
    &&& action.message_type == "action"@
    &&& action.action == name
    &&& action.body_base64 is Some == body is Some
    &&& action.body_base64 matches Some(encoded) ==> outside::base64_bytes(encoded) == body
}

/// The names of actions differ from each other.
proof fn lemma_names_differ()
    ensures
        "continue"@ != "modify"@,
        "continue"@ != "drop"@,
        "continue"@ != "respond"@,
        "continue"@ != "delay"@,
        "modify"@ != "drop"@,
        "modify"@ != "respond"@,
        "modify"@ != "delay"@,
        "drop"@ != "respond"@,
        "drop"@ != "delay"@,
        "respond"@ != "delay"@,
{
    reveal_strlit("continue");
    reveal_strlit("modify");
    reveal_strlit("drop");
    reveal_strlit("respond");
    reveal_strlit("delay");
    assert("continue"@.len() == 8 && "modify"@.len() == 6 && "drop"@.len() == 4 && "respond"@.len()
        == 7 && "delay"@.len() == 5);
}

/// A reply with the identity of the request is followed as it says: `continue` goes on, `modify`
/// hands over the headers to set and to remove and the body, `drop` its reason, `respond` its
/// status, its headers, or else the headers to set, and its body, and `delay` its time, with an
/// empty body and no time where none is given. The interceptor is kept.
pub proof fn actions_are_followed(
    engine: EngineView,
    action: WireActionView,
    body: Option<Seq<u8>>,
)
    ensures
        ({
            let reply = HookReplyView::Action(action);
            let decided = hooks::settled(reply, action.request_id);
            &&& sends(action, "continue"@, body) ==> decided == Some(ActionView::Continue)
            &&& sends(action, "modify"@, body) ==> decided == Some(
                ActionView::Modify {
                    set_headers: action.set_headers,
                    remove_headers: action.remove_headers,
                    body,
                },
            )
            &&& sends(action, "drop"@, body) ==> decided == Some(
                ActionView::Drop { reason: action.reason },
            )
            &&& sends(action, "respond"@, body) ==> (decided matches Some(ActionView::Respond {
                status,
                headers,
                body: given,
            }) && {
                &&& status == action.status
                &&& action.headers.dom() == Set::<Seq<char>>::empty() ==> headers
                    == action.set_headers
                &&& action.headers.dom() != Set::<Seq<char>>::empty() ==> headers == action.headers
                &&& body matches Some(bytes) ==> given == bytes
                &&& body is None ==> given.len() == 0
            })
            &&& sends(action, "delay"@, body) ==> (decided matches Some(ActionView::Delay {
                milliseconds,
            }) && (action.milliseconds matches Some(n) ==> milliseconds == n) && (
            action.milliseconds is None ==> milliseconds == 0))
            &&& hooks::action_of(action) is Some ==> hooks::engine_after(
                engine,
                reply,
                action.request_id,
            ) == engine
        }),
{
    lemma_names_differ();
    if action.headers.dom() == Set::<Seq<char>>::empty() {
        assert(action.headers =~= Map::<Seq<char>, Seq<char>>::empty());
    }
}

/// A message of another type, and one whose body is no base64, is no action: the traffic
/// continues, and the interceptor is forgotten while all else stays.
pub proof fn invalid_messages_are_not_followed(engine: EngineView, action: WireActionView)
    requires
        action.message_type != "action"@ || (action.body_base64 matches Some(encoded)
            && outside::base64_bytes(encoded) is None),
    ensures
        ({
            let reply = HookReplyView::Action(action);
            let after = hooks::engine_after(engine, reply, action.request_id);
            &&& hooks::settled(reply, action.request_id) == Some(ActionView::Continue)
            &&& after.interceptor is None
            &&& after.observers == engine.observers
            &&& after.sequence == engine.sequence
            &&& after.max_json_body_bytes == engine.max_json_body_bytes
        }),
{
}

/// A hook registers with the first version of the protocol as an interceptor or as an observer,
/// and gets JSON bodies exactly where it asks for them. A message of another type or version and
/// another role are refused.
pub proof fn registrations_are_judged(
    message_type: Seq<char>,
    version: u8,
    role: Seq<char>,
    mode: Option<Seq<char>>,
)
    ensures
        ({
            let r = hooks::registration_of(message_type, version, role, mode);
            let known = message_type == "register"@ && version == 1;
            let json = mode matches Some(asked) && asked == "json"@;
            &&& !known ==> r == Err::<Registration, RegistrationError>(
                RegistrationError::Unsupported,
            )
            &&& known && role == "observe"@ ==> r == Ok::<Registration, RegistrationError>(
                Registration { role: HookRole::Observe, json_bodies: json },
            )
            &&& known && role == "intercept"@ ==> r == Ok::<Registration, RegistrationError>(
                Registration { role: HookRole::Intercept, json_bodies: json },
            )
            &&& known && role != "observe"@ && role != "intercept"@ ==> r == Err::<
                Registration,
                RegistrationError,
            >(RegistrationError::UnknownRole)
        }),
{
    reveal_strlit("observe");
    reveal_strlit("intercept");
    assert("observe"@.len() != "intercept"@.len());
}

/// A registered interceptor takes the place of the earlier one, and a registered observer comes
/// behind the others; nothing else changes.
pub proof fn registered_hooks_are_kept(engine: EngineView, registration: Registration)
    ensures
        ({
            let after = hooks::registered(engine, registration);
            &&& registration.role == HookRole::Intercept ==> {
                &&& after.interceptor == Some(registration)
                &&& after.observers == engine.observers
            }
            &&& registration.role == HookRole::Observe ==> {
                &&& after.interceptor == engine.interceptor
                &&& after.observers.len() == engine.observers.len() + 1
                &&& after.observers.last() == registration
                &&& after.observers.drop_last() == engine.observers
            }
            &&& after.sequence == engine.sequence
            &&& after.max_json_body_bytes == engine.max_json_body_bytes
        }),
{
    assert(engine.observers.push(registration).drop_last() =~= engine.observers);
}

/// Bodies are wanted exactly where the interceptor or one of the observers asked for them.
pub proof fn bodies_are_wanted_by_those_who_asked(engine: EngineView)
    ensures
        hooks::bodies_wanted(engine) == ((engine.interceptor is Some
            && engine.interceptor->0.json_bodies) || exists|i: int|
            0 <= i < engine.observers.len() && (#[trigger] engine.observers[i]).json_bodies),
{
}

proof fn lemma_kept(observers: Seq<Registration>, taken: Seq<bool>, more: Seq<bool>)
    requires
        observers.len() <= taken.len(),
    ensures
        hooks::kept_observers(observers, taken + more) == hooks::kept_observers(observers, taken),
    decreases observers.len(),
{
    if observers.len() > 0 {
        lemma_kept(observers.drop_last(), taken, more);
        assert((taken + more)[observers.len() - 1] == taken[observers.len() - 1]);
    }
}

/// Exactly the observers that took a message are kept, in order: one more observer is kept behind
/// the others where it took the message, and left out where it did not. Nothing else changes.
pub proof fn observers_that_fail_are_left_out(
    engine: EngineView,
    taken: Seq<bool>,
    last: Registration,
    took: bool,
)
    requires
        taken.len() == engine.observers.len(),
    ensures
        ({
            let more = EngineView { observers: engine.observers.push(last), ..engine };
            let before = hooks::heard(engine, taken);
            let after = hooks::heard(more, taken.push(took));
            &&& took ==> after.observers == before.observers.push(last)
            &&& !took ==> after.observers == before.observers
            &&& engine.observers.len() == 0 ==> before.observers.len() == 0
            &&& before.interceptor == engine.interceptor
            &&& before.sequence == engine.sequence
            &&& before.max_json_body_bytes == engine.max_json_body_bytes
        }),
{
    lemma_kept(engine.observers, taken, seq![took]);
    assert(taken + seq![took] =~= taken.push(took));
    assert(engine.observers.push(last).drop_last() =~= engine.observers);
}

/// Each decision has an identity of its own: its number behind `hook-`, and the next decision has
/// the next number.
pub proof fn decisions_are_numbered(engine: EngineView, other: u64)
    requires
        engine.sequence < u64::MAX,
    ensures
        hooks::begun(engine).sequence == engine.sequence + 1,
        hooks::begun(engine).interceptor == engine.interceptor,
        hooks::begun(engine).observers == engine.observers,
        hooks::begun(engine).max_json_body_bytes == engine.max_json_body_bytes,
        hooks::request_id(engine.sequence) == seq!['h', 'o', 'o', 'k', '-'] + text::decimal(
            engine.sequence as nat,
        ),
        hooks::request_id(engine.sequence) == hooks::request_id(other) ==> engine.sequence == other,
{
    reveal_strlit("hook-");
    assert("hook-"@ =~= seq!['h', 'o', 'o', 'k', '-']);
    let a = hooks::request_id(engine.sequence);
    let b = hooks::request_id(other);
    if a == b {
        assert(a.skip(5) =~= text::decimal(engine.sequence as nat));
        assert(b.skip(5) =~= text::decimal(other as nat));
        text::decimals_read_back(engine.sequence as nat);
        text::decimals_read_back(other as nat);
    }
}

/// A message to hooks says that it is an event in the first version of the protocol, and holds the
/// identity of the decision, the phase, the event and the body in base64.
pub proof fn events_are_announced(
    id: Seq<char>,
    phase: HookPhase,
    event: events::TrafficEventView,
    body: Option<Seq<char>>,
)
    ensures
        ({
            let message = hooks::event_message(id, phase, event, body);
            &&& message.message_type == "event"@
            &&& message.protocol_version == 1
            &&& message.request_id == id
            &&& message.phase == phase
            &&& message.event == event
            &&& message.body_base64 == body
        }),
{
}

/// An interceptor is asked, and without one the traffic continues.
pub proof fn interceptors_are_asked(engine: EngineView)
    ensures
        engine.interceptor is Some ==> hooks::asked(engine) == hooks::AskingView::Send,
        engine.interceptor is None ==> hooks::asked(engine) == hooks::AskingView::Decided(
            ActionView::Continue,
        ),
{
}

} // verus!
