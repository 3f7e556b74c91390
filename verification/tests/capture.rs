use netscope::capture::decode::tcp_flags;
use netscope::capture::flow::canonical_connection_id;
use netscope::capture::{
    decode_packet, decode_packet_with_metadata, CaptureState, CapturedPacket, DecodeError,
    TcpMetadata, TcpReassembler,
};
use netscope::events::{Direction, Endpoint, Fragmentation, RawPacketReference};

fn tcp_packet(
    source: Endpoint,
    destination: Endpoint,
    sequence_number: u32,
    acknowledgement_number: u32,
    flags_bits: u8,
    window_size: u16,
    payload: &[u8],
) -> CapturedPacket {
    CapturedPacket {
        interface: "en0".into(),
        source,
        destination,
        protocol: "tcp".into(),
        captured_length: 0,
        wire_length: 0,
        ip_version: 4,
        ttl_or_hop_limit: 64,
        fragmentation: None,
        tcp: Some(TcpMetadata {
            flags: tcp_flags(flags_bits),
            flags_bits,
            sequence_number,
            acknowledgement_number,
            window_size,
            options: vec![],
        }),
        udp_length: None,
        icmp_type: None,
        icmp_code: None,
        raw_packet: None,
        payload: payload.to_vec(),
    }
}

fn ipv4_frame(protocol: u8, transport: &[u8]) -> Vec<u8> {
    let mut frame = vec![0_u8; 14 + 20];
    frame[12..14].copy_from_slice(&0x0800_u16.to_be_bytes());
    frame[14] = 0x45;
    frame[16..18].copy_from_slice(&(20 + transport.len() as u16).to_be_bytes());
    frame[22] = 64;
    frame[23] = protocol;
    frame[26..30].copy_from_slice(&[192, 0, 2, 1]);
    frame[30..34].copy_from_slice(&[198, 51, 100, 2]);
    frame.extend_from_slice(transport);
    frame
}

fn ipv6_frame(next: u8, payload: &[u8]) -> Vec<u8> {
    let mut frame = vec![0_u8; 14 + 40];
    frame[12..14].copy_from_slice(&0x86dd_u16.to_be_bytes());
    frame[14] = 0x60;
    frame[18..20].copy_from_slice(&(payload.len() as u16).to_be_bytes());
    frame[20] = next;
    frame[21] = 61;
    frame[22..24].copy_from_slice(&[0x20, 0x01]);
    frame[24..26].copy_from_slice(&[0x0d, 0xb8]);
    frame[37] = 1;
    frame[38..40].copy_from_slice(&[0xfe, 0x80]);
    frame[53] = 2;
    frame.extend_from_slice(payload);
    frame
}

fn failure(frame: &[u8]) -> DecodeError {
    decode_packet("en0".into(), frame).unwrap_err()
}

#[test]
fn decodes_ipv4_udp_metadata() {
    let mut frame = vec![0_u8; 14 + 20 + 8 + 3];
    frame[12..14].copy_from_slice(&0x0800_u16.to_be_bytes());
    frame[14] = 0x45;
    frame[16..18].copy_from_slice(&(31_u16).to_be_bytes());
    frame[22] = 64;
    frame[23] = 17;
    frame[26..30].copy_from_slice(&[192, 0, 2, 1]);
    frame[30..34].copy_from_slice(&[198, 51, 100, 2]);
    frame[34..36].copy_from_slice(&12345_u16.to_be_bytes());
    frame[36..38].copy_from_slice(&53_u16.to_be_bytes());
    frame[38..40].copy_from_slice(&(11_u16).to_be_bytes());
    frame[42..].copy_from_slice(b"dns");
    let packet = decode_packet("en0".into(), &frame).unwrap();
    assert_eq!(packet.destination.port, 53);
    assert_eq!(packet.payload, b"dns");
    assert_eq!(packet.udp_length, Some(11));
    assert_eq!(packet.ttl_or_hop_limit, 64);
}

#[test]
fn canonical_ids_and_flow_direction_are_shared() {
    let client = Endpoint::new("192.0.2.1", 50000);
    let server = Endpoint::new("198.51.100.2", 443);
    assert_eq!(
        canonical_connection_id("en0", "tcp", &client, &server),
        canonical_connection_id("en0", "tcp", &server, &client),
    );
}

#[test]
fn connection_ids_name_the_lesser_endpoint_first() {
    let client = Endpoint::new("192.0.2.1", 50000);
    let server = Endpoint::new("fe80::1", 443);
    assert_eq!(
        canonical_connection_id("en0", "tcp", &server, &client),
        "capture:en0:tcp:192.0.2.1:50000-[fe80::1]:443"
    );
}

#[test]
fn decodes_tcp_flags_and_lengths() {
    let mut frame = vec![0_u8; 14 + 20 + 20];
    frame[12..14].copy_from_slice(&0x0800_u16.to_be_bytes());
    frame[14] = 0x45;
    frame[16..18].copy_from_slice(&(40_u16).to_be_bytes());
    frame[22] = 63;
    frame[23] = 6;
    frame[26..30].copy_from_slice(&[192, 0, 2, 1]);
    frame[30..34].copy_from_slice(&[198, 51, 100, 2]);
    frame[34..36].copy_from_slice(&50000_u16.to_be_bytes());
    frame[36..38].copy_from_slice(&443_u16.to_be_bytes());
    frame[38..42].copy_from_slice(&123_u32.to_be_bytes());
    frame[42..46].copy_from_slice(&456_u32.to_be_bytes());
    frame[46] = 0x50;
    frame[47] = 0x12;
    frame[48..50].copy_from_slice(&65535_u16.to_be_bytes());
    let packet = decode_packet("en0".into(), &frame).unwrap();
    let tcp = packet.tcp.unwrap();
    assert_eq!(tcp.flags, vec!["ACK", "SYN"]);
    assert_eq!(tcp.sequence_number, 123);
    assert_eq!(tcp.acknowledgement_number, 456);
    assert_eq!(tcp.window_size, 65535);
    assert!(packet.payload.is_empty());
}

#[test]
fn decodes_addresses_lengths_and_raw_references() {
    let frame = ipv4_frame(17, &[0x30, 0x39, 0, 53, 0, 8, 0, 0]);
    let raw = RawPacketReference {
        packet_id: "a-1".into(),
        file: "a".into(),
        offset: 48,
    };
    let packet =
        decode_packet_with_metadata("en0".into(), &frame, 42, 60, Some(raw)).unwrap();
    assert_eq!(packet.source.host, "192.0.2.1");
    assert_eq!(packet.source.port, 12345);
    assert_eq!(packet.destination.host, "198.51.100.2");
    assert_eq!(packet.captured_length, 42);
    assert_eq!(packet.wire_length, 60);
    assert_eq!(packet.ip_version, 4);
    assert_eq!(packet.raw_packet.unwrap().offset, 48);
}

#[test]
fn every_decoding_error_has_a_frame() {
    assert_eq!(failure(&[0; 13]), DecodeError::ShortFrame);
    let mut other = vec![0_u8; 60];
    other[12..14].copy_from_slice(&0x0806_u16.to_be_bytes());
    assert_eq!(failure(&other), DecodeError::UnsupportedLink);

    let good = ipv4_frame(17, &[0; 8]);
    assert_eq!(failure(&good[..33]), DecodeError::ShortIpv4);
    let mut bad = good.clone();
    bad[14] = 0x44;
    assert_eq!(failure(&bad), DecodeError::InvalidIpv4Header);
    bad[14] = 0x4f;
    assert_eq!(failure(&bad), DecodeError::InvalidIpv4Header);
    let mut bad = good.clone();
    bad[17] = 19;
    assert_eq!(failure(&bad), DecodeError::InvalidIpv4Length);
    assert_eq!(failure(&ipv4_frame(47, &[0; 8])), DecodeError::UnsupportedTransport);
    assert_eq!(failure(&ipv4_frame(17, &[0; 3])), DecodeError::ShortTransport);
    assert_eq!(failure(&ipv4_frame(17, &[0; 7])), DecodeError::ShortUdp);
    assert_eq!(failure(&ipv4_frame(6, &[0; 19])), DecodeError::ShortTcp);
    assert_eq!(failure(&ipv4_frame(6, &[0; 20])), DecodeError::InvalidTcpHeader);
    assert_eq!(failure(&ipv4_frame(1, &[0; 1])), DecodeError::ShortControlMessage);

    let short = ipv6_frame(17, &[0; 8]);
    assert_eq!(failure(&short[..53]), DecodeError::ShortIpv6);
    assert_eq!(failure(&ipv6_frame(44, &[17; 7])), DecodeError::TruncatedFragmentHeader);
    assert_eq!(failure(&ipv6_frame(0, &[17])), DecodeError::TruncatedExtensionHeader);
    assert_eq!(failure(&ipv6_frame(0, &[17, 1, 0, 0])), DecodeError::TruncatedExtensionHeader);
    assert_eq!(failure(&[0; 13]).message(), "short Ethernet frame");
}

#[test]
fn follows_ipv6_extension_headers_to_the_transport() {
    let mut payload = vec![44, 0, 0, 0, 0, 0, 0, 0];
    payload.extend_from_slice(&[51, 0, 0, 9, 1, 2, 3, 4]);
    payload.extend_from_slice(&[17, 1, 0, 0, 0, 0, 0, 0, 0, 0, 0, 0]);
    payload.extend_from_slice(&[0, 7, 0, 53, 0, 10, 0, 0, 9, 9]);
    let packet = decode_packet("en0".into(), &ipv6_frame(0, &payload)).unwrap();
    assert_eq!(packet.source.host, "2001:db8::1");
    assert_eq!(packet.protocol, "udp");
    // The fragment at offset eight holds no transport header.
    assert_eq!(packet.source.port, 0);
    assert_eq!(
        packet.fragmentation,
        Some(Fragmentation {
            is_fragmented: true,
            offset: 8,
            more_fragments: true,
            identification: Some(0x0102_0304),
        })
    );
    assert_eq!(packet.payload.len(), 10);

    let mut whole = vec![17, 1];
    whole.extend_from_slice(&[0; 14]);
    whole.extend_from_slice(&[0, 7, 0, 53, 0, 10, 0, 0, 9, 9]);
    let packet = decode_packet("en0".into(), &ipv6_frame(60, &whole)).unwrap();
    assert_eq!(packet.source.port, 7);
    assert_eq!(packet.destination.host, "fe80::2");
    assert_eq!(packet.payload, vec![9, 9]);
    assert_eq!(packet.ttl_or_hop_limit, 61);
}

#[test]
fn later_fragments_keep_their_payload_and_lose_their_ports() {
    let mut frame = ipv4_frame(6, &[1, 2, 3]);
    frame[18..20].copy_from_slice(&7_u16.to_be_bytes());
    frame[20..22].copy_from_slice(&0x2003_u16.to_be_bytes());
    let packet = decode_packet("en0".into(), &frame).unwrap();
    assert_eq!(packet.payload, vec![1, 2, 3]);
    assert_eq!(packet.source.port, 0);
    assert!(packet.tcp.is_none());
    let fragment = packet.fragmentation.unwrap();
    assert_eq!(fragment.offset, 24);
    assert!(fragment.more_fragments);
    assert_eq!(fragment.identification, Some(7));
}

#[test]
fn control_messages_report_their_type_and_code() {
    let packet = decode_packet("en0".into(), &ipv4_frame(1, &[8, 3, 0, 0, 0, 1, 0, 2, 5])).unwrap();
    assert_eq!(packet.protocol, "icmp");
    assert_eq!(packet.icmp_type, Some(8));
    assert_eq!(packet.icmp_code, Some(3));
    assert_eq!(packet.payload, vec![5]);
    let short = decode_packet("en0".into(), &ipv6_frame(58, &[128, 0, 7])).unwrap();
    assert_eq!(short.protocol, "icmpv6");
    assert!(short.payload.is_empty());
}

#[test]
fn tcp_options_are_named_and_their_values_are_hexadecimal() {
    let mut segment = vec![0_u8; 20];
    segment[12] = 0xa0;
    segment[13] = 0xff;
    segment.extend_from_slice(&[2, 4, 5, 0xb4, 1, 3, 3, 7, 4, 2, 99, 3, 0x0f, 0, 1, 1]);
    segment.extend_from_slice(&[0, 0, 0, 0]);
    let tcp = decode_packet("en0".into(), &ipv4_frame(6, &segment)).unwrap().tcp.unwrap();
    let names: Vec<&str> = tcp.options.iter().map(|o| o.kind.as_str()).collect();
    assert_eq!(
        names,
        vec!["mss", "nop", "window_scale", "sack_permitted", "unknown", "end"]
    );
    assert_eq!(tcp.options[0].value_hex.as_deref(), Some("05b4"));
    assert_eq!(tcp.options[0].length, 4);
    assert_eq!(tcp.options[3].value_hex, None);
    assert_eq!(tcp.options[4].value_hex.as_deref(), Some("0f"));
    assert_eq!(
        tcp.flags,
        vec!["CWR", "ECE", "URG", "ACK", "PSH", "RST", "SYN", "FIN"]
    );
}

#[test]
fn reassembles_contiguous_tcp_segments() {
    let mut r = TcpReassembler::default();
    assert_eq!(r.push("a".into(), 10, b"hello"), Some(b"hello".to_vec()));
    assert_eq!(
        r.push("a".into(), 15, b" world"),
        Some(b"hello world".to_vec())
    );
}

#[test]
fn gaps_are_held_back_and_streams_are_separate() {
    let mut r = TcpReassembler::default();
    assert_eq!(r.push("a".into(), 10, b"one"), Some(b"one".to_vec()));
    assert_eq!(r.push("a".into(), 20, b"late"), None);
    assert_eq!(r.push("b".into(), 20, b"other"), Some(b"other".to_vec()));
    assert_eq!(r.push("a".into(), 13, b"two"), Some(b"onetwo".to_vec()));
}

#[test]
fn sequence_numbers_wrap_and_flags_take_one() {
    let mut r = TcpReassembler::default();
    assert_eq!(
        r.push_segment("a".into(), u32::MAX - 1, b"xy", 1),
        Some(b"xy".to_vec())
    );
    assert_eq!(r.push("a".into(), 1, b"z"), Some(b"xyz".to_vec()));
}

#[test]
fn a_stream_keeps_its_first_bytes() {
    let mut r = TcpReassembler::default();
    let first = vec![1_u8; 131072];
    assert_eq!(r.push_segment("a".into(), 0, &first, 0), Some(first.clone()));
    assert_eq!(r.push_segment("a".into(), 131072, &[2], 0), Some(first.clone()));
    assert_eq!(r.push_segment("a".into(), 131073, &[3, 4], 0), Some(first.clone()));
    assert_eq!(r.push_segment("a".into(), 131073, &[3, 4], 0), None);
    let mut part = TcpReassembler::default();
    assert_eq!(part.push("a".into(), 0, &first[..131071]).unwrap().len(), 131071);
    let full = part.push("a".into(), 131071, &[2, 3]).unwrap();
    assert_eq!(full.len(), 131072);
    assert_eq!(&full[131070..], &[1, 2]);
}

#[test]
fn classifies_tcp_anomalies_without_calling_pure_acks_retransmissions() {
    let client = Endpoint::new("192.0.2.1", 50000);
    let server = Endpoint::new("198.51.100.2", 443);

    let mut duplicate_ack_state = CaptureState::default();
    duplicate_ack_state.observe(&tcp_packet(
        client.clone(),
        server.clone(),
        10,
        0,
        0x02,
        4096,
        b"",
    ));
    duplicate_ack_state.observe(&tcp_packet(
        client.clone(),
        server.clone(),
        11,
        100,
        0x10,
        4096,
        b"",
    ));
    let duplicate_ack = duplicate_ack_state.observe(&tcp_packet(
        client.clone(),
        server.clone(),
        11,
        100,
        0x10,
        4096,
        b"",
    ));
    assert!(duplicate_ack.duplicate_ack);
    assert!(!duplicate_ack.retransmitted_segment);

    let mut retransmission_state = CaptureState::default();
    retransmission_state.observe(&tcp_packet(
        client.clone(),
        server.clone(),
        100,
        0,
        0x18,
        4096,
        b"hello",
    ));
    let retransmission = retransmission_state.observe(&tcp_packet(
        client.clone(),
        server.clone(),
        100,
        0,
        0x18,
        4096,
        b"hello",
    ));
    assert!(retransmission.retransmitted_segment);
    assert!(!retransmission.out_of_order);

    let mut out_of_order_state = CaptureState::default();
    out_of_order_state.observe(&tcp_packet(
        client.clone(),
        server.clone(),
        100,
        0,
        0x18,
        4096,
        b"hello",
    ));
    let out_of_order = out_of_order_state.observe(&tcp_packet(
        client.clone(),
        server.clone(),
        90,
        0,
        0x18,
        4096,
        b"there",
    ));
    assert!(out_of_order.out_of_order);
    assert!(!out_of_order.retransmitted_segment);

    let mut zero_window_state = CaptureState::default();
    zero_window_state.observe(&tcp_packet(
        server.clone(),
        client.clone(),
        500,
        100,
        0x10,
        0,
        b"",
    ));
    let zero_window_probe =
        zero_window_state.observe(&tcp_packet(client, server, 99, 500, 0x10, 4096, b"x"));
    assert!(zero_window_probe.zero_window_probe);
}

#[test]
fn replies_go_the_other_way() {
    let client = Endpoint::new("192.0.2.1", 50000);
    let server = Endpoint::new("198.51.100.2", 8443);
    let mut state = CaptureState::default();
    let open =
        state.observe(&tcp_packet(client.clone(), server.clone(), 1, 0, 0x02, 1, b""));
    assert_eq!(open.direction, Direction::ClientToServer);
    assert!(open.opened);
    assert_eq!(open.closed, None);
    let reply =
        state.observe(&tcp_packet(server.clone(), client.clone(), 9, 2, 0x12, 1, b""));
    assert_eq!(reply.direction, Direction::ServerToClient);
    assert_eq!(reply.connection_id, open.connection_id);
    assert!(!reply.opened);
    let fin =
        state.observe(&tcp_packet(client.clone(), server.clone(), 2, 10, 0x11, 1, b""));
    assert_eq!(fin.closed.as_deref(), Some("fin"));
    let reset = state.observe(&tcp_packet(server, client, 10, 3, 0x05, 1, b""));
    assert_eq!(reset.closed.as_deref(), Some("reset"));
}

#[test]
fn the_client_is_guessed_by_its_port() {
    let low = Endpoint::new("192.0.2.1", 443);
    let high = Endpoint::new("192.0.2.2", 50000);
    let other = Endpoint::new("192.0.2.3", 50001);
    let mut state = CaptureState::default();
    let seen = state.observe(&tcp_packet(low, high.clone(), 1, 0, 0x10, 1, b"a"));
    assert_eq!(seen.direction, Direction::ServerToClient);
    let seen = state.observe(&tcp_packet(high, other, 1, 0, 0x10, 1, b"a"));
    assert_eq!(seen.direction, Direction::Unknown);
}

#[test]
fn segments_are_forgotten_when_there_are_too_many() {
    let a = Endpoint::new("192.0.2.1", 50000);
    let b = Endpoint::new("198.51.100.2", 443);
    let mut state = CaptureState::default();
    for n in 0..4096_u32 {
        let seen =
            state.observe(&tcp_packet(a.clone(), b.clone(), n, 0, 0x10, 1, b"x"));
        assert!(!seen.retransmitted_segment);
    }
    let again = state.observe(&tcp_packet(a.clone(), b.clone(), 0, 0, 0x10, 1, b"x"));
    assert!(!again.retransmitted_segment);
    let again = state.observe(&tcp_packet(a, b, 0, 0, 0x10, 1, b"x"));
    assert!(again.retransmitted_segment);
}

#[test]
fn segments_are_recognized_after_other_packets() {
    let client = || Endpoint::new("192.0.2.1", 50000);
    let server = || Endpoint::new("198.51.100.2", 443);
    let mut state = CaptureState::default();
    let segment = || tcp_packet(client(), server(), 100, 1, 0x18, 512, b"abc");
    assert!(!state.observe(&segment()).retransmitted_segment);
    state.observe(&tcp_packet(server(), client(), 1, 103, 0x10, 512, b""));
    state.observe(&tcp_packet(client(), server(), 103, 1, 0x18, 512, b"def"));
    let again = state.observe(&segment());
    assert!(again.retransmitted_segment);
    assert!(!again.out_of_order);
    let late = state.observe(&tcp_packet(client(), server(), 101, 1, 0x18, 512, b"x"));
    assert!(late.out_of_order);
    assert!(!late.retransmitted_segment);
}

#[test]
fn the_opener_stays_the_client() {
    let opener = || Endpoint::new("192.0.2.1", 443);
    let peer = || Endpoint::new("198.51.100.2", 50000);
    let mut state = CaptureState::default();
    let first = state.observe(&tcp_packet(opener(), peer(), 1, 0, 0x02, 512, b""));
    assert!(first.opened);
    assert_eq!(first.direction, Direction::ClientToServer);
    let reply = state.observe(&tcp_packet(peer(), opener(), 9, 2, 0x12, 512, b""));
    assert!(!reply.opened);
    assert_eq!(reply.direction, Direction::ServerToClient);
    let reopened = state.observe(&tcp_packet(peer(), opener(), 9, 0, 0x02, 512, b""));
    assert!(reopened.opened);
    assert_eq!(reopened.direction, Direction::ServerToClient);
}

#[test]
fn padding_never_reaches_the_payload() {
    let mut transport = vec![0_u8; 8];
    transport[5] = 10;
    transport.extend_from_slice(b"ok");
    for frame in [ipv4_frame(17, &transport), ipv6_frame(17, &transport)] {
        let mut padded = frame.clone();
        padded.extend_from_slice(&[0xee; 20]);
        let bare = decode_packet_with_metadata("en0".into(), &frame, 60, 60, None).unwrap();
        let whole = decode_packet_with_metadata("en0".into(), &padded, 60, 60, None).unwrap();
        assert_eq!(whole.payload, b"ok");
        assert_eq!(bare.payload, whole.payload);
        assert_eq!(bare.udp_length, whole.udp_length);
        assert_eq!(bare.source.host, whole.source.host);
    }
}

#[test]
fn what_counts_is_the_last_acknowledgement_of_a_direction() {
    let client = || Endpoint::new("192.0.2.1", 50000);
    let server = || Endpoint::new("198.51.100.2", 443);
    let mut state = CaptureState::default();
    let ack = |number, window| tcp_packet(server(), client(), 1, number, 0x10, window, b"");
    assert!(!state.observe(&ack(10, 0)).duplicate_ack);
    state.observe(&tcp_packet(client(), server(), 10, 1, 0x10, 5, b""));
    state.observe(&tcp_packet(server(), client(), 1, 10, 0x18, 0, b"data"));
    assert!(state.observe(&ack(10, 0)).duplicate_ack);
    let probe = || tcp_packet(client(), server(), 9, 1, 0x10, 5, b"x");
    assert!(state.observe(&probe()).zero_window_probe);
    assert!(!state.observe(&ack(10, 7)).duplicate_ack);
    assert!(!state.observe(&probe()).zero_window_probe);
    assert!(!state.observe(&ack(10, 0)).duplicate_ack);
    assert!(state.observe(&probe()).zero_window_probe);
}
