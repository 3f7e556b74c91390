use netscope::addr::IpAddr;
use netscope::capture::bpf::bpf_filter;
use netscope::capture::decode::tcp_flags;
use netscope::capture::plan::plan_interfaces;
use netscope::capture::report::protocol_matches;
use netscope::capture::{
    emit_packet, CaptureState, CapturedPacket, RawCaptureOptions, TcpMetadata,
};
use netscope::events::{Direction, Endpoint, EventDraft, EventKind, TrafficEvent, TrafficFilter};
use netscope::parsers::certificate::CertificateSummary;
use netscope::paths::FilePath;

fn packet(source: (&str, u16), destination: (&str, u16), protocol: &str) -> CapturedPacket {
    CapturedPacket {
        interface: "en0".into(),
        source: Endpoint::new(source.0, source.1),
        destination: Endpoint::new(destination.0, destination.1),
        protocol: protocol.into(),
        captured_length: 60,
        wire_length: 60,
        ip_version: 4,
        ttl_or_hop_limit: 64,
        fragmentation: None,
        tcp: None,
        udp_length: None,
        icmp_type: None,
        icmp_code: None,
        raw_packet: None,
        payload: vec![],
    }
}

fn tcp(source: (&str, u16), destination: (&str, u16), bits: u8, seq: u32, payload: &[u8]) -> CapturedPacket {
    let mut p = packet(source, destination, "tcp");
    p.tcp = Some(TcpMetadata {
        flags: tcp_flags(bits),
        flags_bits: bits,
        sequence_number: seq,
        acknowledgement_number: 0,
        window_size: 100,
        options: vec![],
    });
    p.payload = payload.to_vec();
    p
}

fn names(drafts: &[EventDraft]) -> Vec<&'static str> {
    drafts
        .iter()
        .map(|d| match d.kind {
            EventKind::Packet { .. } => "packet",
            EventKind::ConnectionOpened { .. } => "opened",
            EventKind::ConnectionClosed { .. } => "closed",
            EventKind::Dns { .. } => "dns",
            EventKind::TlsClientHello { .. } => "hello",
            EventKind::TlsCertificate { .. } => "certificate",
            _ => "other",
        })
        .collect()
}

fn dns_message(id: u8, response: bool) -> Vec<u8> {
    let mut m = vec![0, id, if response { 0x81 } else { 1 }, 0, 0, 1, 0, response as u8, 0, 0, 0, 0];
    m.extend_from_slice(&[1, b'a', 4, b't', b'e', b's', b't', 0, 0, 1, 0, 1]);
    if response {
        m.extend_from_slice(&[0xc0, 12, 0, 1, 0, 1, 0, 0, 0, 60, 0, 4, 192, 0, 2, 9]);
    }
    m
}

fn client_hello(name: &[u8]) -> Vec<u8> {
    let mut body = vec![3, 3];
    body.extend_from_slice(&[0; 32]);
    body.extend_from_slice(&[0, 0, 2, 0x13, 1, 1, 0]);
    let mut extension = vec![0, (name.len() + 3) as u8, 0, 0, name.len() as u8];
    extension.extend_from_slice(name);
    let total = extension.len() + 4;
    body.extend_from_slice(&[0, total as u8, 0, 0, 0, extension.len() as u8]);
    body.extend_from_slice(&extension);
    let mut record = vec![22, 3, 1, 0, (body.len() + 4) as u8, 1, 0, 0, body.len() as u8];
    record.extend_from_slice(&body);
    record
}

#[test]
fn an_opening_packet_gives_two_events_that_share_their_flow() {
    let drafts = emit_packet(
        tcp(("192.0.2.1", 50000), ("198.51.100.2", 443), 0x02, 1, b""),
        &TrafficFilter::default(),
        0,
    );
    assert_eq!(names(&drafts), vec!["packet", "opened"]);
    assert_eq!(drafts[0].connection_id, drafts[1].connection_id);
    assert_eq!(drafts[1].direction, Direction::ClientToServer);
    assert_eq!(drafts[1].source.port, 50000);
    assert!(drafts[0].attributes.is_empty());
}

#[test]
fn refused_packets_give_no_events() {
    let mut filter = TrafficFilter::default();
    filter.protocols.push("UDP".into());
    let p = tcp(("192.0.2.1", 50000), ("198.51.100.2", 443), 0x02, 1, b"");
    assert!(emit_packet(p.clone(), &filter, 0).is_empty());
    filter.protocols.push("TCP".into());
    assert_eq!(emit_packet(p.clone(), &filter, 0).len(), 2);
    filter.ports.push(80);
    assert!(emit_packet(p.clone(), &filter, 0).is_empty());
    filter.ports.push(443);
    filter.ips.push(IpAddr::V4(198, 51, 100, 3));
    assert!(emit_packet(p.clone(), &filter, 0).is_empty());
    filter.ips.push(IpAddr::V4(198, 51, 100, 2));
    assert_eq!(emit_packet(p.clone(), &filter, 0).len(), 2);
    filter.interfaces.push("lo0".into());
    assert!(emit_packet(p, &filter, 0).is_empty());
}

#[test]
fn icmpv6_has_two_names() {
    assert!(protocol_matches("ICMP6", "icmpv6"));
    assert!(protocol_matches("icmpv6", "icmpv6"));
    assert!(!protocol_matches("icmp6", "icmp"));
    assert!(protocol_matches("Tcp", "tcp"));
}

#[test]
fn retransmissions_are_noted_in_the_attributes() {
    let mut state = CaptureState::default();
    let filter = TrafficFilter::default();
    let p = tcp(("192.0.2.1", 50000), ("198.51.100.2", 443), 0x18, 5, b"abc");
    state.emit_reassembled_packet(p.clone(), &filter, 0);
    let drafts = state.emit_reassembled_packet(p, &filter, 1);
    assert_eq!(drafts[0].attributes.get("retransmitted_segment"), Some(&true));
    assert_eq!(drafts[0].attributes.get("out_of_order"), None);
}

#[test]
fn responses_are_timed_and_answers_are_written_in_lines() {
    let mut state = CaptureState::default();
    let filter = TrafficFilter::default();
    let mut query = packet(("192.0.2.1", 50000), ("192.0.2.53", 53), "udp");
    query.payload = dns_message(7, false);
    let mut response = packet(("192.0.2.53", 53), ("192.0.2.1", 50000), "udp");
    response.payload = dns_message(7, true);

    let drafts = state.emit_reassembled_packet(query, &filter, 1_000_000);
    assert_eq!(names(&drafts), vec!["packet", "dns"]);
    let drafts = state.emit_reassembled_packet(response.clone(), &filter, 8_999_999);
    match &drafts[1].kind {
        EventKind::Dns { query, answers, latency_ms, is_response, transaction_id, .. } => {
            assert_eq!(query.as_deref(), Some("a.test"));
            assert_eq!(answers, &vec!["a.test 1 192.0.2.9 ttl=60".to_string()]);
            assert_eq!(*latency_ms, Some(7));
            assert!(*is_response);
            assert_eq!(*transaction_id, 7);
        }
        _ => panic!("expected a DNS event"),
    }
    // The query waits no longer.
    let drafts = state.emit_reassembled_packet(response, &filter, 9_000_000);
    match &drafts[1].kind {
        EventKind::Dns { latency_ms, .. } => assert_eq!(*latency_ms, None),
        _ => panic!("expected a DNS event"),
    }
}

#[test]
fn hidden_hostnames_are_not_reported() {
    let mut filter = TrafficFilter::default();
    filter.hostnames.push("B.test".into());
    let mut query = packet(("192.0.2.1", 50000), ("192.0.2.53", 53), "udp");
    query.payload = dns_message(7, false);
    assert_eq!(names(&emit_packet(query.clone(), &filter, 0)), vec!["packet"]);
    filter.hostnames.push("A.TEST".into());
    assert_eq!(names(&emit_packet(query, &filter, 0)), vec!["packet", "dns"]);
}

#[test]
fn too_many_waiting_queries_are_forgotten() {
    let mut state = CaptureState::default();
    let filter = TrafficFilter::default();
    for n in 0..4097_u32 {
        let mut query = packet(("192.0.2.1", 1025 + (n / 256) as u16), ("192.0.2.53", 53), "udp");
        query.payload = dns_message((n % 256) as u8, false);
        state.emit_reassembled_packet(query, &filter, 0);
    }
    assert_eq!(state.dns_queries.len(), 1);
}

#[test]
fn a_client_hello_is_reported_once_for_each_flow() {
    let mut state = CaptureState::default();
    let filter = TrafficFilter::default();
    let hello = client_hello(b"example.com");
    let first = tcp(("192.0.2.1", 50000), ("198.51.100.2", 443), 0x18, 5, &hello);
    let drafts = state.emit_reassembled_packet(first, &filter, 0);
    assert_eq!(names(&drafts), vec!["packet", "hello"]);
    match &drafts[1].kind {
        EventKind::TlsClientHello { sni, cipher_suites, .. } => {
            assert_eq!(sni.as_deref(), Some("example.com"));
            assert_eq!(cipher_suites, &vec!["0x1301".to_string()]);
        }
        _ => panic!("expected a ClientHello"),
    }
    let next = 5 + hello.len() as u32;
    let more = tcp(("192.0.2.1", 50000), ("198.51.100.2", 443), 0x18, next, b"more");
    assert_eq!(names(&state.emit_reassembled_packet(more, &filter, 1)), vec!["packet"]);
}

#[test]
fn a_certificate_is_reported_once_for_each_flow() {
    let mut state = CaptureState::default();
    let filter = TrafficFilter::default();
    let p = tcp(("198.51.100.2", 443), ("192.0.2.1", 50000), 0x18, 5, b"x");
    let summary = CertificateSummary {
        subject: "CN=a".into(),
        issuer: "CN=b".into(),
        serial: "01".into(),
        not_after: "never".into(),
    };
    let drafts = state.report_packet(p.clone(), &filter, 0, None, Some(summary.clone()));
    assert_eq!(names(&drafts), vec!["packet", "certificate"]);
    match &drafts[1].kind {
        EventKind::TlsCertificate { subject, serial, .. } => {
            assert_eq!(subject.as_deref(), Some("CN=a"));
            assert_eq!(serial.as_deref(), Some("01"));
        }
        _ => panic!("expected a certificate"),
    }
    let drafts = state.report_packet(p, &filter, 0, None, Some(summary));
    assert_eq!(names(&drafts), vec!["packet"]);
}

#[test]
fn events_are_identified_by_connection_time_and_number() {
    let event = TrafficEvent::new(
        "c".into(),
        Direction::Unknown,
        Endpoint::new("a", 1),
        Endpoint::new("b", 2),
        EventKind::Error { message: "m".into() },
        1234567890123,
        42,
    );
    assert_eq!(event.id, "c-1234567890123-42");
    assert_eq!(event.timestamp_ms, 1234567890123);
    let drafts = emit_packet(
        tcp(("192.0.2.1", 50000), ("198.51.100.2", 443), 0x02, 1, b""),
        &TrafficFilter::default(),
        0,
    );
    let id = drafts[0].connection_id.clone();
    let stamped = drafts.into_iter().next().unwrap().stamp(5, 6);
    assert_eq!(stamped.id, format!("{id}-5-6"));
}

#[test]
fn filters_match_endpoints_by_port_name_and_address() {
    let mut filter = TrafficFilter::default();
    let endpoint = Endpoint::new("2001:DB8::1", 443);
    assert!(filter.matches_endpoint(&endpoint));
    filter.ips.push(IpAddr::V6(0x2001, 0xdb8, 0, 0, 0, 0, 0, 1));
    assert!(filter.matches_endpoint(&endpoint));
    filter.hostnames.push("2001:db8::1".into());
    assert!(filter.matches_endpoint(&endpoint));
    filter.ports.push(80);
    assert!(!filter.matches_endpoint(&endpoint));
}

#[test]
fn capture_filters_join_their_clauses() {
    let mut filter = TrafficFilter::default();
    assert_eq!(bpf_filter(&filter), None);
    filter.protocols = vec!["TCP".into(), "quic".into(), "ICMPv6".into()];
    filter.ports = vec![80, 443];
    filter.ips = vec![IpAddr::V4(192, 0, 2, 1), IpAddr::V6(0xfe80, 0, 0, 0, 0, 0, 0, 1)];
    assert_eq!(
        bpf_filter(&filter).as_deref(),
        Some("(tcp or icmp6) and (port 80 or port 443) and (host 192.0.2.1 or host fe80::1)")
    );
    let mut unknown = TrafficFilter::default();
    unknown.protocols = vec!["quic".into()];
    assert_eq!(bpf_filter(&unknown), None);
}

#[test]
fn each_interface_gets_a_raw_file_of_its_own() {
    let raw = Some(RawCaptureOptions {
        path: FilePath::new("/tmp/c.pcapng"),
        rotate_bytes: 9,
    });
    let none = plan_interfaces(vec![], TrafficFilter::default(), &raw);
    assert_eq!(none.unwrap_err(), "at least one --interface is required");
    let one = plan_interfaces(vec!["en0".into()], TrafficFilter::default(), &raw).unwrap();
    assert_eq!(one.captures[0].raw_capture.as_ref().unwrap().path.display(), "/tmp/c.pcapng");
    let two =
        plan_interfaces(vec!["en0".into(), "a/b".into()], TrafficFilter::default(), &raw).unwrap();
    assert_eq!(two.filter.interfaces, vec!["en0", "a/b"]);
    assert_eq!(two.captures[1].interface, "a/b");
    assert_eq!(two.captures[0].raw_capture.as_ref().unwrap().path.display(), "/tmp/c.en0.pcapng");
    assert_eq!(two.captures[1].raw_capture.as_ref().unwrap().path.display(), "/tmp/c.a_b.pcapng");
    assert_eq!(two.captures[1].raw_capture.as_ref().unwrap().rotate_bytes, 9);
}
