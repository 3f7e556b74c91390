use netscope::events::{Endpoint, EventKind};
use netscope::hooks::{HookPhase, InterceptionAction};
use netscope::parsers::http1::{Head, RequestHead, ResponseHead};
use netscope::proxy::entry::{
    check_options, decide_first, established_reply, plan_client, ClientPlan, FirstStep,
};
use netscope::proxy::framing::{
    check_line, frame_request, frame_response, relay_line, ChunkState, ChunkStep, Framing,
    HeadReader, ReadStep,
};
use netscope::proxy::message::{
    authority, certificate_event, connection_id, is_eof, json_body_length, modify_headers,
    origin_target, peer_certificate_event, request_destination, set_fixed_body_headers,
    write_replacement, write_request_head, write_response_head, ProxyError,
};
use netscope::proxy::session::{Effect, Input, Session, Side, State};
use netscope::textmap::{Headers, TextMap};

fn headers(pairs: &[(&str, &str)]) -> Headers {
    TextMap::from_pairs(
        pairs.iter().map(|(k, v)| (k.to_string(), v.to_string())).collect(),
    )
}

fn request(method: &str, target: &str, pairs: &[(&str, &str)]) -> RequestHead {
    RequestHead {
        method: method.into(),
        target: target.into(),
        version: "HTTP/1.1".into(),
        headers: headers(pairs),
    }
}

fn response(status: u16, pairs: &[(&str, &str)]) -> ResponseHead {
    ResponseHead {
        status,
        reason: "R".into(),
        version: "HTTP/1.1".into(),
        headers: headers(pairs),
    }
}

fn text(bytes: &[u8]) -> String {
    String::from_utf8(bytes.to_vec()).unwrap()
}

#[test]
fn absolute_target_becomes_origin_form() {
    assert_eq!(origin_target("http://example.test/a?b"), "/a?b");
    assert_eq!(origin_target("http://example.test"), "/");
}

#[test]
fn other_targets_stay_as_they_are() {
    assert_eq!(origin_target("/a"), "/a");
    assert_eq!(origin_target("*"), "*");
    assert_eq!(origin_target("https://example.test/a"), "https://example.test/a");
}

#[test]
fn modifier_is_case_insensitive() {
    let mut h = headers(&[("x-old", "yes")]);
    modify_headers(&mut h, headers(&[("X-New", "ok")]), vec!["X-OLD".into()]);
    assert_eq!(h.get("x-new"), Some(&"ok".to_string()));
    assert!(!h.contains_key("x-old"));
}

#[test]
fn of_two_spellings_the_later_counts() {
    let mut h = headers(&[("a", "0")]);
    modify_headers(&mut h, headers(&[("A", "1"), ("a", "2")]), vec!["A".into()]);
    assert_eq!(h.get("a"), Some(&"2".to_string()));
    assert_eq!(h.len(), 1);
}

#[test]
fn only_bounded_uncompressed_json_is_buffered_for_hooks() {
    let json = headers(&[
        ("content-type", "application/json; charset=utf-8"),
        ("content-length", "12"),
    ]);
    assert_eq!(json_body_length(&json, 16), Some(12));
    assert_eq!(json_body_length(&json, 8), None);
    let compressed = headers(&[
        ("content-type", "application/json"),
        ("content-length", "12"),
        ("content-encoding", "gzip"),
    ]);
    assert_eq!(json_body_length(&compressed, 16), None);
}

#[test]
fn chunked_json_keeps_streaming() {
    let chunked = headers(&[
        ("content-type", "application/json"),
        ("content-length", "12"),
        ("transfer-encoding", "gzip, Chunked"),
    ]);
    assert_eq!(json_body_length(&chunked, 16), None);
    let plain = headers(&[
        ("content-type", "application/json"),
        ("content-length", "12"),
        ("transfer-encoding", "gzip"),
    ]);
    assert_eq!(json_body_length(&plain, 16), Some(12));
}

#[test]
fn json_media_types_are_recognized() {
    let of = |kind: &str| {
        json_body_length(&headers(&[("content-type", kind), ("content-length", "1")]), 1)
    };
    assert_eq!(of("Application/JSON"), Some(1));
    assert_eq!(of("application/problem+Json"), Some(1));
    assert_eq!(of("text/json"), None);
    assert_eq!(json_body_length(&headers(&[("content-length", "1")]), 1), None);
    assert_eq!(json_body_length(&headers(&[("content-type", "application/json")]), 1), None);
}

#[test]
fn replacement_writes_a_self_contained_http_response() {
    let response = write_replacement(418, headers(&[("x-intercepted", "yes")]), b"blocked");
    let text = String::from_utf8(response).unwrap();
    assert!(text.starts_with("HTTP/1.1 418 Intercepted\r\n"));
    assert!(text.contains("content-length: 7\r\n"));
    assert!(text.ends_with("\r\n\r\nblocked"));
    assert!(text.contains("content-type: text/plain; charset=utf-8\r\n"));
    assert!(text.contains("x-intercepted: yes\r\n"));
}

#[test]
fn given_content_types_are_kept_and_lengths_corrected() {
    let given = headers(&[("content-type", "a/b"), ("content-length", "99")]);
    assert_eq!(
        text(&write_replacement(200, given, b"xy")),
        "HTTP/1.1 200 Intercepted\r\ncontent-length: 2\r\ncontent-type: a/b\r\n\r\nxy"
    );
}

#[test]
fn heads_are_written_in_header_order() {
    let head = request("GET", "http://a.test/x", &[("host", "a.test"), ("accept", "*/*")]);
    assert_eq!(
        text(&write_request_head(&head)),
        "GET /x HTTP/1.1\r\naccept: */*\r\nhost: a.test\r\n\r\n"
    );
    assert_eq!(
        text(&write_response_head(&response(204, &[("server", "s")]))),
        "HTTP/1.1 204 R\r\nserver: s\r\n\r\n"
    );
}

#[test]
fn fixed_bodies_lose_their_transfer_coding() {
    let mut h = headers(&[("transfer-encoding", "chunked"), ("content-length", "1")]);
    set_fixed_body_headers(&mut h, 42);
    assert_eq!(h.get("content-length"), Some(&"42".to_string()));
    assert!(!h.contains_key("transfer-encoding"));
    assert_eq!(frame_request(&h), Framing::Length(42));
}

#[test]
fn authorities_name_a_host_and_a_port() {
    let of = |value: &str| authority(value, 443);
    assert_eq!(of("example.test:8443"), Ok(("example.test".into(), 8443)));
    assert_eq!(of(" example.test "), Ok(("example.test".into(), 443)));
    assert_eq!(of("[::1]"), Err(ProxyError::InvalidPort));
    assert_eq!(of("[::1]:80"), Ok(("::1]:80".into(), 443)));
    assert_eq!(of("[example.test]"), Ok(("example.test".into(), 443)));
    assert_eq!(of("::1:80"), Ok(("::1".into(), 80)));
    assert_eq!(of("a:b"), Err(ProxyError::InvalidPort));
    assert_eq!(of("a:70000"), Err(ProxyError::InvalidPort));
    assert_eq!(of("a:"), Err(ProxyError::InvalidPort));
}

#[test]
fn requests_go_to_their_target_or_their_host() {
    let to = |r: RequestHead| request_destination(&r);
    assert_eq!(
        to(request("GET", "http://a.test:81/x", &[("host", "b.test")])),
        Ok(("a.test".into(), 81))
    );
    assert_eq!(to(request("GET", "http://a.test", &[])), Ok(("a.test".into(), 80)));
    assert_eq!(to(request("GET", "/", &[("host", "b.test:8080")])), Ok(("b.test".into(), 8080)));
    assert_eq!(to(request("GET", "/", &[])), Err(ProxyError::NoHost));
}

#[test]
fn bodies_end_as_their_headers_say() {
    assert_eq!(frame_request(&headers(&[])), Framing::Empty);
    assert_eq!(frame_request(&headers(&[("transfer-encoding", "chunked")])), Framing::Chunked);
    assert_eq!(
        frame_request(&headers(&[("transfer-encoding", "chunked"), ("content-length", "3")])),
        Framing::Length(3)
    );
    for status in [100, 199, 204, 304] {
        assert_eq!(frame_response(&response(status, &[("content-length", "3")])), Framing::Empty);
    }
    assert_eq!(frame_response(&response(200, &[])), Framing::UntilClose);
    assert_eq!(frame_response(&response(200, &[("content-length", "3")])), Framing::Length(3));
}

#[test]
fn heads_are_complete_at_their_first_empty_line() {
    let mut reader = HeadReader::new();
    for byte in b"GET / HTTP/1.1\r\n\r" {
        assert_eq!(reader.push(*byte).0, ReadStep::More);
    }
    let (step, bytes) = reader.push(b'\n');
    assert_eq!(step, ReadStep::Complete);
    assert_eq!(bytes, b"GET / HTTP/1.1\r\n\r\n");
    for _ in 0..65536 {
        assert_eq!(reader.push(b'a').0, ReadStep::More);
    }
    assert_eq!(reader.push(b'a').0, ReadStep::TooLong);
}

#[test]
fn lines_are_bounded() {
    assert_eq!(check_line(b"5\r\n"), ReadStep::Complete);
    assert_eq!(check_line(b"5\r"), ReadStep::More);
    assert_eq!(check_line(&[b'a'; 8193]), ReadStep::TooLong);
    assert_eq!(check_line(b"\n"), ReadStep::More);
}

#[test]
fn chunks_are_relayed_line_by_line() {
    let size = |line: &[u8]| relay_line(ChunkState::Size, line);
    assert_eq!(size(b"1a\r\n"), Ok(ChunkStep::Copy(28)));
    assert_eq!(size(b" 5;name=value\r\n"), Ok(ChunkStep::Copy(7)));
    assert_eq!(size(b"0\r\n"), Ok(ChunkStep::Trailer));
    assert_eq!(size(b"\r\n"), Err(ProxyError::InvalidChunkSize));
    assert_eq!(size(b"5 ;x\r\n"), Err(ProxyError::InvalidChunkSize));
    assert_eq!(size(b"\xff\r\n"), Err(ProxyError::LineNotText));
    assert_eq!(relay_line(ChunkState::Trailer, b"a: b\r\n"), Ok(ChunkStep::Trailer));
    assert_eq!(relay_line(ChunkState::Trailer, b"\r\n"), Ok(ChunkStep::Finish));
}

#[test]
fn errors_that_speak_of_the_end_are_recognized() {
    assert!(is_eof("EOF while reading HTTP header"));
    assert!(!is_eof("eof"));
    assert_eq!(ProxyError::NoHost.message(), "HTTP request has no Host header");
}

fn peer() -> Endpoint {
    Endpoint::new("127.0.0.1", 50123)
}

#[test]
fn connections_are_named_after_their_endpoints() {
    assert_eq!(
        connection_id(&peer(), &Endpoint::new("a.test", 80)),
        "127.0.0.1:50123-a.test:80"
    );
}

#[test]
fn tunnels_are_announced() {
    let head = Head::Request(request("Connect", "a.test:8443", &[]));
    match plan_client(head, peer(), true).unwrap() {
        ClientPlan::Tunnel { route, event, intercepted } => {
            assert_eq!(route.destination.port, 8443);
            assert_eq!(route.id, "127.0.0.1:50123-a.test:8443");
            assert!(intercepted);
            match event.kind {
                EventKind::Tunnel { authority, intercepted } => {
                    assert_eq!(authority, "a.test:8443");
                    assert!(intercepted);
                }
                _ => panic!("expected a tunnel event"),
            }
        }
        ClientPlan::Request { .. } => panic!("expected a tunnel"),
    }
    assert_eq!(
        text(&established_reply()),
        "HTTP/1.1 200 Connection Established\r\nProxy-Agent: netscope\r\n\r\n"
    );
}

#[test]
fn clients_must_send_requests() {
    let head = Head::Response(response(200, &[]));
    assert_eq!(plan_client(head, peer(), false).unwrap_err(), ProxyError::ClientSentResponse);
    let head = Head::Request(request("GET", "/", &[]));
    assert_eq!(plan_client(head, peer(), false).unwrap_err(), ProxyError::NoHost);
    assert_eq!(check_options(true, false), Err(ProxyError::MissingAuthority));
    assert_eq!(check_options(true, true), Ok(()));
    assert_eq!(check_options(false, false), Ok(()));
}

#[test]
fn a_first_answer_is_given_without_connecting() {
    let head = request("POST", "http://a.test/", &[("content-length", "4")]);
    let respond = InterceptionAction::Respond {
        status: None,
        headers: headers(&[]),
        body: b"no".to_vec(),
    };
    match decide_first(&head, respond) {
        FirstStep::End(effects) => {
            assert!(matches!(effects[0], Effect::Drain(Side::Client, Framing::Length(4))));
            match &effects[1] {
                Effect::Write(Side::Client, bytes) => {
                    assert!(text(bytes).starts_with("HTTP/1.1 200 Intercepted\r\n"));
                }
                _ => panic!("expected an answer"),
            }
            assert_eq!(effects.len(), 2);
        }
        FirstStep::Connect { .. } => panic!("expected no connection"),
    }
    match decide_first(&head, InterceptionAction::Drop { reason: None }) {
        FirstStep::End(effects) => assert_eq!(effects.len(), 1),
        FirstStep::Connect { .. } => panic!("expected no connection"),
    }
    match decide_first(&head, InterceptionAction::Delay { milliseconds: 5 }) {
        FirstStep::Connect { effects, action } => {
            assert!(matches!(effects[0], Effect::Sleep(5)));
            assert_eq!(action, InterceptionAction::Continue);
        }
        FirstStep::End(_) => panic!("expected a connection"),
    }
}

fn session() -> Session {
    Session::new("id".into(), peer(), Endpoint::new("a.test", 80), 1024)
}

fn kinds(effects: &[Effect]) -> Vec<&'static str> {
    effects
        .iter()
        .map(|effect| match effect {
            Effect::Emit(draft) => match draft.kind {
                EventKind::ConnectionOpened { .. } => "opened",
                EventKind::ConnectionClosed { .. } => "closed",
                _ => "emit",
            },
            Effect::Decide { phase, .. } => match phase {
                HookPhase::RequestHeaders => "decide request",
                HookPhase::RequestBody => "decide request body",
                HookPhase::ResponseHeaders => "decide response",
                HookPhase::ResponseBody => "decide response body",
            },
            Effect::ReadHead(Side::Client) => "read request",
            Effect::ReadHead(Side::Upstream) => "read response",
            Effect::AskJson => "ask",
            Effect::ReadBody(Side::Client, _) => "read request body",
            Effect::ReadBody(Side::Upstream, _) => "read response body",
            Effect::Sleep(_) => "sleep",
            Effect::Drain(Side::Client, _) => "drain client",
            Effect::Drain(Side::Upstream, _) => "drain upstream",
            Effect::Write(Side::Client, _) => "write client",
            Effect::Write(Side::Upstream, _) => "write upstream",
            Effect::Relay(Side::Client, _) => "relay request",
            Effect::Relay(Side::Upstream, _) => "relay response",
            Effect::Tunnel => "tunnel",
            Effect::Close => "close",
            Effect::Fail(_) => "fail",
        })
        .collect()
}

#[test]
fn a_plain_exchange_is_forwarded_unchanged() {
    let mut s = session();
    assert_eq!(kinds(&s.start(None)), vec!["opened", "read request"]);
    let r = request("GET", "http://a.test/x", &[("host", "a.test")]);
    assert_eq!(kinds(&s.step(Input::Head(Head::Request(r)))), vec!["decide request"]);
    assert_eq!(kinds(&s.step(Input::Decision(InterceptionAction::Continue))), vec!["ask"]);
    let effects = s.step(Input::WantsJson(false));
    assert_eq!(kinds(&effects), vec!["write upstream", "relay request", "read response"]);
    match &effects[0] {
        Effect::Write(_, bytes) => {
            assert_eq!(text(bytes), "GET /x HTTP/1.1\r\nhost: a.test\r\n\r\n")
        }
        _ => panic!("expected a write"),
    }
    let r = response(200, &[("content-length", "2")]);
    assert_eq!(kinds(&s.step(Input::Head(Head::Response(r)))), vec!["decide response"]);
    assert_eq!(
        kinds(&s.step(Input::Decision(InterceptionAction::Delay { milliseconds: 1 }))),
        vec!["sleep", "ask"]
    );
    assert_eq!(
        kinds(&s.step(Input::WantsJson(true))),
        vec!["write client", "relay response", "read request"]
    );
    assert_eq!(
        kinds(&s.step(Input::HeadFailed("EOF while reading HTTP header".into()))),
        vec!["closed", "close"]
    );
    assert!(matches!(s.state, State::Finished));
}

#[test]
fn json_bodies_can_be_replaced_on_both_ways() {
    let mut s = session();
    let json = [("content-type", "application/json"), ("content-length", "2")];
    let first = request("POST", "/", &json);
    assert_eq!(
        kinds(&s.start(Some((first, InterceptionAction::Continue)))),
        vec!["opened", "ask"]
    );
    assert_eq!(kinds(&s.step(Input::WantsJson(true))), vec!["read request body"]);
    let effects = s.step(Input::Body(b"{}".to_vec()));
    match &effects[0] {
        Effect::Decide { event, body, .. } => {
            assert_eq!(body.as_deref(), Some(&b"{}"[..]));
            match &event.kind {
                EventKind::HttpBody { length, content_type, .. } => {
                    assert_eq!(*length, 2);
                    assert_eq!(content_type.as_deref(), Some("application/json"));
                }
                _ => panic!("expected a body event"),
            }
        }
        _ => panic!("expected a decision"),
    }
    let effects = s.step(Input::Decision(InterceptionAction::Modify {
        set_headers: headers(&[("X-A", "1")]),
        remove_headers: vec![],
        body: Some(b"[1,2]".to_vec()),
    }));
    assert_eq!(kinds(&effects), vec!["write upstream", "read response"]);
    match &effects[0] {
        Effect::Write(_, bytes) => assert_eq!(
            text(bytes),
            "POST / HTTP/1.1\r\ncontent-length: 5\r\ncontent-type: application/json\r\nx-a: 1\r\n\r\n[1,2]"
        ),
        _ => panic!("expected a write"),
    }
    s.step(Input::Head(Head::Response(response(200, &json))));
    s.step(Input::Decision(InterceptionAction::Continue));
    assert_eq!(kinds(&s.step(Input::WantsJson(true))), vec!["read response body"]);
    assert_eq!(kinds(&s.step(Input::Body(b"{}".to_vec()))), vec!["decide response body"]);
    let effects = s.step(Input::Decision(InterceptionAction::Continue));
    assert_eq!(kinds(&effects), vec!["write client", "read request"]);
    match &effects[0] {
        Effect::Write(_, bytes) => assert!(text(bytes).ends_with("\r\n\r\n{}")),
        _ => panic!("expected a write"),
    }
}

fn to_response(s: &mut Session, pairs: &[(&str, &str)]) {
    s.start(None);
    s.step(Input::Head(Head::Request(request("GET", "/", pairs))));
    s.step(Input::Decision(InterceptionAction::Continue));
    s.step(Input::WantsJson(false));
}

#[test]
fn closing_exchanges_end_the_connection() {
    let mut s = session();
    to_response(&mut s, &[("connection", "Close")]);
    s.step(Input::Head(Head::Response(response(200, &[("content-length", "0")]))));
    s.step(Input::Decision(InterceptionAction::Continue));
    assert_eq!(
        kinds(&s.step(Input::WantsJson(false))),
        vec!["write client", "relay response", "closed", "close"]
    );

    let mut s = session();
    to_response(&mut s, &[]);
    s.step(Input::Head(Head::Response(response(200, &[]))));
    s.step(Input::Decision(InterceptionAction::Continue));
    assert_eq!(
        kinds(&s.step(Input::WantsJson(false))),
        vec!["write client", "relay response", "closed", "close"]
    );

    let mut s = session();
    to_response(&mut s, &[]);
    s.step(Input::Head(Head::Response(response(101, &[]))));
    s.step(Input::Decision(InterceptionAction::Continue));
    assert_eq!(
        kinds(&s.step(Input::WantsJson(false))),
        vec!["write client", "relay response", "tunnel", "closed", "close"]
    );
}

#[test]
fn answered_requests_never_reach_the_upstream_peer() {
    let mut s = session();
    s.start(None);
    s.step(Input::Head(Head::Request(request("GET", "/", &[]))));
    let respond = || InterceptionAction::Respond {
        status: Some(403),
        headers: headers(&[]),
        body: b"denied".to_vec(),
    };
    assert_eq!(
        kinds(&s.step(Input::Decision(respond()))),
        vec!["drain client", "write client", "read request"]
    );

    let mut s = session();
    to_response(&mut s, &[]);
    s.step(Input::Head(Head::Response(response(200, &[]))));
    assert_eq!(
        kinds(&s.step(Input::Decision(respond()))),
        vec!["drain upstream", "write client", "read request"]
    );
}

#[test]
fn dropped_messages_end_the_connection() {
    let drop = || InterceptionAction::Drop { reason: None };
    let mut s = session();
    s.start(None);
    s.step(Input::Head(Head::Request(request("GET", "/", &[]))));
    assert_eq!(
        kinds(&s.step(Input::Decision(drop()))),
        vec!["drain client", "closed", "close"]
    );

    let mut s = session();
    to_response(&mut s, &[]);
    s.step(Input::Head(Head::Response(response(200, &[]))));
    assert_eq!(
        kinds(&s.step(Input::Decision(drop()))),
        vec!["drain upstream", "closed", "close"]
    );
}

#[test]
fn unexpected_heads_and_replies_break_the_connection() {
    let reason = |effects: Vec<Effect>| match effects.into_iter().next() {
        Some(Effect::Fail(reason)) => reason,
        _ => panic!("expected a failure"),
    };
    let mut s = session();
    s.start(None);
    assert_eq!(
        reason(s.step(Input::Head(Head::Response(response(200, &[]))))),
        "expected request"
    );
    let mut s = session();
    s.start(None);
    assert_eq!(reason(s.step(Input::HeadFailed("reset".into()))), "reset");
    let mut s = session();
    to_response(&mut s, &[]);
    assert_eq!(
        reason(s.step(Input::Head(Head::Request(request("GET", "/", &[]))))),
        "upstream sent a request"
    );
    let mut s = session();
    to_response(&mut s, &[]);
    assert_eq!(
        reason(s.step(Input::HeadFailed("EOF while reading HTTP header".into()))),
        "EOF while reading HTTP header"
    );
    let mut s = session();
    s.start(None);
    assert_eq!(reason(s.step(Input::WantsJson(true))), "unexpected reply");
}

#[test]
fn unreadable_peer_certificates_are_not_reported() {
    let destination = Endpoint::new("a.test", 443);
    assert!(peer_certificate_event("id", &peer(), &destination, &[1, 2]).is_none());
    assert!(certificate_event("id", &peer(), &destination, Err("bad".into())).is_none());
}

fn to_request_body(s: &mut Session) {
    let json = [("content-type", "application/json"), ("content-length", "2")];
    s.start(Some((request("POST", "/", &json), InterceptionAction::Continue)));
    s.step(Input::WantsJson(true));
    s.step(Input::Body(b"{}".to_vec()));
}

fn to_response_body(s: &mut Session) {
    let json = [("content-type", "application/json"), ("content-length", "2")];
    to_response(s, &[]);
    s.step(Input::Head(Head::Response(response(200, &json))));
    s.step(Input::Decision(InterceptionAction::Continue));
    s.step(Input::WantsJson(true));
    s.step(Input::Body(b"{}".to_vec()));
}

#[test]
fn shown_bodies_can_be_answered_dropped_and_delayed() {
    let respond = || InterceptionAction::Respond {
        status: None,
        headers: headers(&[]),
        body: b"no".to_vec(),
    };
    let mut s = session();
    to_request_body(&mut s);
    let effects = s.step(Input::Decision(respond()));
    assert_eq!(kinds(&effects), vec!["write client", "read request"]);
    match &effects[0] {
        Effect::Write(_, bytes) => assert!(text(bytes).starts_with("HTTP/1.1 200 Intercepted\r\n")),
        _ => panic!("expected a write"),
    }
    let mut s = session();
    to_response_body(&mut s);
    assert_eq!(
        kinds(&s.step(Input::Decision(respond()))),
        vec!["write client", "read request"]
    );

    let drop = || InterceptionAction::Drop { reason: Some("policy".into()) };
    let mut s = session();
    to_request_body(&mut s);
    assert_eq!(kinds(&s.step(Input::Decision(drop()))), vec!["closed", "close"]);
    let mut s = session();
    to_response_body(&mut s);
    assert_eq!(kinds(&s.step(Input::Decision(drop()))), vec!["closed", "close"]);

    let delay = || InterceptionAction::Delay { milliseconds: 500 };
    let mut s = session();
    to_request_body(&mut s);
    let effects = s.step(Input::Decision(delay()));
    assert_eq!(kinds(&effects), vec!["sleep", "write upstream", "read response"]);
    assert!(matches!(effects[0], Effect::Sleep(500)));
    let mut s = session();
    to_response_body(&mut s);
    assert_eq!(
        kinds(&s.step(Input::Decision(delay()))),
        vec!["sleep", "write client", "read request"]
    );
}

#[test]
fn a_replaced_response_body_states_its_length() {
    let mut s = session();
    to_response_body(&mut s);
    let effects = s.step(Input::Decision(InterceptionAction::Modify {
        set_headers: headers(&[("Transfer-Encoding", "chunked")]),
        remove_headers: vec![],
        body: Some(b"[1,2,3]".to_vec()),
    }));
    match &effects[0] {
        Effect::Write(Side::Client, bytes) => assert_eq!(
            text(bytes),
            "HTTP/1.1 200 R\r\ncontent-length: 7\r\ncontent-type: application/json\r\n\r\n[1,2,3]"
        ),
        _ => panic!("expected a write to the client"),
    }
}
