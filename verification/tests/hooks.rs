use netscope::events::{Direction, Endpoint, EventKind, TrafficEvent};
use netscope::hooks::{
    default_role, interpret_action, AllowAll, Asking, HookEvent, HookPhase, HookReply, HookRole,
    InterceptionAction, RegisterMessage, Registration, RegistrationError, WebSocketHookEngine,
    WireAction, HOOK_PROTOCOL_VERSION,
};
use netscope::textmap::{Headers, TextMap};

fn headers(pairs: &[(&str, &str)]) -> Headers {
    TextMap::from_pairs(
        pairs.iter().map(|(k, v)| (k.to_string(), v.to_string())).collect(),
    )
}

fn wire(action: &str) -> WireAction {
    WireAction {
        message_type: "action".into(),
        request_id: "hook-1".into(),
        action: action.into(),
        set_headers: headers(&[]),
        remove_headers: vec![],
        status: None,
        headers: headers(&[]),
        body_base64: None,
        reason: None,
        milliseconds: None,
    }
}

fn event() -> TrafficEvent {
    TrafficEvent::new(
        "c".into(),
        Direction::Unknown,
        Endpoint::new("a", 1),
        Endpoint::new("b", 2),
        EventKind::Error { message: "m".into() },
        1,
        2,
    )
}

#[test]
fn decodes_a_language_neutral_modify_action() {
    let shown = HookEvent::new(
        "hook-1".into(),
        HookPhase::RequestBody,
        event(),
        Some(br#"{"ok":true}"#),
    );
    let action = WireAction {
        message_type: "action".into(),
        request_id: "hook-1".into(),
        action: "modify".into(),
        set_headers: headers(&[("x-test", "yes")]),
        remove_headers: vec!["server".into()],
        status: None,
        headers: headers(&[]),
        body_base64: shown.body_base64,
        reason: None,
        milliseconds: None,
    };
    assert_eq!(
        WebSocketHookEngine::parse_action(action),
        Some(InterceptionAction::Modify {
            set_headers: headers(&[("x-test", "yes")]),
            remove_headers: vec!["server".into()],
            body: Some(br#"{"ok":true}"#.to_vec()),
        })
    );
}

#[test]
fn bodies_are_shown_in_base64() {
    let shown =
        HookEvent::new("hook-9".into(), HookPhase::ResponseBody, event(), Some(b"hello"));
    assert_eq!(shown.body_base64.as_deref(), Some("aGVsbG8="));
    assert_eq!(shown.message_type, "event");
    assert_eq!(shown.protocol_version, HOOK_PROTOCOL_VERSION);
    assert_eq!(shown.request_id, "hook-9");
    let bare = HookEvent::new("hook-9".into(), HookPhase::RequestHeaders, event(), None);
    assert_eq!(bare.body_base64, None);
}

#[test]
fn every_action_has_a_name() {
    let parse = WebSocketHookEngine::parse_action;
    assert_eq!(parse(wire("continue")), Some(InterceptionAction::Continue));
    let mut drop = wire("drop");
    drop.reason = Some("policy".into());
    assert_eq!(
        parse(drop),
        Some(InterceptionAction::Drop { reason: Some("policy".into()) })
    );
    let mut delay = wire("delay");
    assert_eq!(parse(wire("delay")), Some(InterceptionAction::Delay { milliseconds: 0 }));
    delay.milliseconds = Some(500);
    assert_eq!(parse(delay), Some(InterceptionAction::Delay { milliseconds: 500 }));
    let mut respond = wire("respond");
    respond.status = Some(403);
    respond.body_base64 = Some("ZGVuaWVk".into());
    respond.set_headers = headers(&[("a", "set")]);
    assert_eq!(
        parse(respond),
        Some(InterceptionAction::Respond {
            status: Some(403),
            headers: headers(&[("a", "set")]),
            body: b"denied".to_vec(),
        })
    );
    let mut respond = wire("respond");
    respond.set_headers = headers(&[("a", "set")]);
    respond.headers = headers(&[("b", "own")]);
    assert_eq!(
        parse(respond),
        Some(InterceptionAction::Respond {
            status: None,
            headers: headers(&[("b", "own")]),
            body: vec![],
        })
    );
}

#[test]
fn invalid_actions_ask_for_nothing() {
    let parse = WebSocketHookEngine::parse_action;
    assert_eq!(parse(wire("allow")), None);
    let mut other = wire("continue");
    other.message_type = "event".into();
    assert_eq!(parse(other), None);
    let mut bad = wire("continue");
    bad.body_base64 = Some("***".into());
    assert_eq!(parse(bad), None);
    assert_eq!(
        interpret_action(wire("modify"), Some(vec![1])),
        Some(InterceptionAction::Modify {
            set_headers: headers(&[]),
            remove_headers: vec![],
            body: Some(vec![1]),
        })
    );
}

fn registration(kind: &str, version: u8, role: &str, mode: Option<&str>) -> RegisterMessage {
    RegisterMessage {
        message_type: kind.into(),
        protocol_version: version,
        role: role.into(),
        body_mode: mode.map(|m| m.into()),
    }
}

#[test]
fn registrations_name_a_role() {
    assert_eq!(default_role(), "intercept");
    let observe = registration("register", 1, "observe", Some("json")).accept().unwrap();
    assert_eq!(observe, Registration { role: HookRole::Observe, json_bodies: true });
    let intercept = registration("register", 1, "intercept", Some("all")).accept().unwrap();
    assert_eq!(intercept, Registration { role: HookRole::Intercept, json_bodies: false });
    assert_eq!(intercept.acknowledge().role, "intercept");
    assert_eq!(intercept.acknowledge().body_mode, "none");
    assert_eq!(observe.acknowledge().body_mode, "json");
    assert_eq!(observe.acknowledge().message_type, "registered");
    assert_eq!(
        registration("register", 2, "observe", None).accept(),
        Err(RegistrationError::Unsupported)
    );
    assert_eq!(
        registration("hello", 1, "observe", None).accept(),
        Err(RegistrationError::Unsupported)
    );
    let unknown = registration("register", 1, "watch", None).accept().unwrap_err();
    assert_eq!(unknown.message(), "role must be 'intercept' or 'observe'");
}

#[test]
fn a_newer_interceptor_replaces_the_earlier_one() {
    let mut engine = WebSocketHookEngine::new(1024);
    assert!(!engine.wants_json_bodies());
    assert_eq!(engine.max_json_body_bytes(), 1024);
    engine.register(Registration { role: HookRole::Intercept, json_bodies: true });
    assert!(engine.wants_json_bodies());
    engine.register(Registration { role: HookRole::Intercept, json_bodies: false });
    assert!(!engine.wants_json_bodies());
    engine.register(Registration { role: HookRole::Observe, json_bodies: true });
    assert!(engine.wants_json_bodies());
    engine.retain_observers(&[false]);
    assert!(engine.observers.is_empty());
    assert!(engine.interceptor.is_some());
}

#[test]
fn stalled_observers_are_forgotten() {
    let mut engine = WebSocketHookEngine::new(0);
    for json_bodies in [true, false, true] {
        engine.register(Registration { role: HookRole::Observe, json_bodies });
    }
    engine.retain_observers(&[true, false, true]);
    assert_eq!(engine.observers.len(), 2);
    assert!(engine.observers.iter().all(|o| o.json_bodies));
}

#[test]
fn broken_hooks_fail_open() {
    let mut engine = WebSocketHookEngine::new(0);
    let interceptor = Registration { role: HookRole::Intercept, json_bodies: false };
    engine.register(interceptor);
    let id = engine.begin();
    assert_eq!(id, "hook-1");
    assert_eq!(engine.settle(HookReply::NotText, &id), None);
    let mut stale = wire("drop");
    stale.request_id = "hook-0".into();
    assert_eq!(engine.settle(HookReply::Action(stale), &id), None);
    assert!(engine.interceptor.is_some());
    assert_eq!(
        engine.settle(HookReply::Action(wire("drop")), &id),
        Some(InterceptionAction::Drop { reason: None })
    );
    assert!(engine.interceptor.is_some());
    assert_eq!(
        engine.settle(HookReply::Action(wire("explode")), &id),
        Some(InterceptionAction::Continue)
    );
    assert!(engine.interceptor.is_none());
    engine.register(interceptor);
    let id = engine.begin();
    assert_eq!(id, "hook-2");
    assert_eq!(
        engine.settle(HookReply::Failed, &id),
        Some(InterceptionAction::Continue)
    );
    assert!(engine.interceptor.is_none());
}

#[test]
fn without_hooks_everything_continues() {
    assert_eq!(AllowAll.decide(), InterceptionAction::Continue);
    assert!(!AllowAll.wants_json_bodies());
    assert_eq!(InterceptionAction::default(), InterceptionAction::Continue);
}

#[test]
fn a_broken_interceptor_is_not_asked_until_another_registers() {
    let mut engine = WebSocketHookEngine::new(0);
    let decided = |engine: &WebSocketHookEngine| match engine.ask() {
        Asking::Decided(action) => Some(action),
        Asking::Send => None,
    };
    let interceptor = Registration { role: HookRole::Intercept, json_bodies: false };
    let observer = Registration { role: HookRole::Observe, json_bodies: true };
    assert_eq!(decided(&engine), Some(InterceptionAction::Continue));
    engine.register(interceptor);
    assert_eq!(decided(&engine), None);
    let id = engine.begin();
    engine.settle(HookReply::Failed, &id);
    assert_eq!(decided(&engine), Some(InterceptionAction::Continue));
    engine.register(observer);
    engine.begin();
    engine.retain_observers(&[true]);
    assert_eq!(decided(&engine), Some(InterceptionAction::Continue));
    engine.register(interceptor);
    assert_eq!(decided(&engine), None);
}
