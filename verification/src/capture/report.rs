//! What is reported of each packet.
use crate::capture::decode;
use crate::capture::decode::CapturedPacket;
use crate::capture::flow;
use crate::capture::flow::{CaptureState, FlowObservation, FlowState};
use crate::capture::queries;
use crate::capture::reassembly;
use crate::events;
use crate::events::{Endpoint, EventDraft, EventKind, TrafficFilter};
use crate::outside;
use crate::parsers::certificate;
use crate::parsers::certificate::CertificateSummary;
use crate::parsers::dns;
use crate::parsers::dns::{DnsAnswer, DnsSummary};
use crate::parsers::tls;
use crate::parsers::tls::ClientHello;
use crate::text;
use crate::textmap::TextMap;
use vstd::prelude::*;
use vstd::string::StringExecFns;

verus! {

// ---------------------------------------------------------------------------------------------
// Model
// ---------------------------------------------------------------------------------------------

/// What a packet leads to: the state after it and the events it gives.
#[verifier::ext_equal]
pub struct ReportView {
    pub state: flow::CaptureView,
    pub events: Seq<events::EventDraftView>,
}

/// A protocol of a filter names the protocol of a packet.
pub open spec fn protocol_fits(wanted: Seq<char>, protocol: Seq<char>) -> bool {
    ||| text::lower(wanted) == text::lower(protocol)
    ||| (text::lower(wanted) == "icmp6"@ || text::lower(wanted) == "icmpv6"@) && protocol
        == "icmpv6"@
}

/// A filter admits a protocol.
pub open spec fn protocol_allowed(
    filter: events::TrafficFilterView,
    protocol: Seq<char>,
) -> bool {
    filter.protocols.len() == 0 || exists|i: int|
        0 <= i < filter.protocols.len() && protocol_fits(#[trigger] filter.protocols[i], protocol)
}

/// A filter admits a packet.
pub open spec fn packet_allowed(
    filter: events::TrafficFilterView,
    packet: decode::CapturedPacketView,
) -> bool {
    protocol_allowed(filter, packet.protocol) && filter.allows_packet(
        packet.interface,
        packet.source,
        packet.destination,
    )
}

/// What is reported of a packet itself.
pub open spec fn packet_kind(packet: decode::CapturedPacketView) -> events::EventKindView {
    events::EventKindView::Packet {
        interface: packet.interface,
        protocol: packet.protocol,
        length: payload_length(packet),
        captured_length: packet.captured_length,
        wire_length: packet.wire_length,
        payload_length: payload_length(packet),
        ip_version: packet.ip_version,
        ttl_or_hop_limit: packet.ttl_or_hop_limit,
        fragmentation: packet.fragmentation,
        tcp_flags: match packet.tcp {
            Some(metadata) => Some(metadata.flags),
            None => None,
        },
        sequence_number: match packet.tcp {
            Some(metadata) => Some(metadata.sequence_number),
            None => None,
        },
        acknowledgement_number: match packet.tcp {
            Some(metadata) => Some(metadata.acknowledgement_number),
            None => None,
        },
        window_size: match packet.tcp {
            Some(metadata) => Some(metadata.window_size),
            None => None,
        },
        tcp_options: match packet.tcp {
            Some(metadata) => Some(metadata.options),
            None => None,
        },
        udp_length: packet.udp_length,
        icmp_type: packet.icmp_type,
        icmp_code: packet.icmp_code,
        raw_packet: packet.raw_packet,
    }
}

/// The length of the payload of a packet.
pub open spec fn payload_length(packet: decode::CapturedPacketView) -> usize {
    packet.payload.len() as usize
}

/// A map with one more key, where a condition holds.
pub open spec fn noted(
    attributes: Map<Seq<char>, bool>,
    holds: bool,
    name: Seq<char>,
) -> Map<Seq<char>, bool> {
    if holds {
        attributes.insert(name, true)
    } else {
        attributes
    }
}

/// The attributes that say what is unusual about a packet.
pub open spec fn anomalies(observation: flow::ObservationView) -> Map<Seq<char>, bool> {
    noted(
        noted(
            noted(
                noted(Map::empty(), observation.duplicate_ack, "duplicate_ack"@),
                observation.retransmitted_segment,
                "retransmitted_segment"@,
            ),
            observation.out_of_order,
            "out_of_order"@,
        ),
        observation.zero_window_probe,
        "zero_window_probe"@,
    )
}

/// An event about the flow of a packet.
pub open spec fn flow_event(
    observation: flow::ObservationView,
    packet: decode::CapturedPacketView,
    kind: events::EventKindView,
) -> events::EventDraftView {
    events::plain_draft(
        observation.connection_id,
        observation.direction,
        packet.source,
        packet.destination,
        kind,
    )
}

/// The event about a packet itself.
pub open spec fn packet_event(
    observation: flow::ObservationView,
    packet: decode::CapturedPacketView,
) -> events::EventDraftView {
    events::EventDraftView {
        attributes: anomalies(observation),
        ..flow_event(observation, packet, packet_kind(packet))
    }
}

/// The event about an opened connection, if the packet opens one.
pub open spec fn opened_events(
    observation: flow::ObservationView,
    packet: decode::CapturedPacketView,
) -> Seq<events::EventDraftView> {
    if observation.opened {
        seq![
            flow_event(
                observation,
                packet,
                events::EventKindView::ConnectionOpened { transport: packet.protocol },
            ),
        ]
    } else {
        Seq::empty()
    }
}

/// The event about a closed connection, if the packet closes one.
pub open spec fn closed_events(
    observation: flow::ObservationView,
    packet: decode::CapturedPacketView,
) -> Seq<events::EventDraftView> {
    if observation.closed is Some {
        seq![
            flow_event(
                observation,
                packet,
                events::EventKindView::ConnectionClosed { reason: observation.closed },
            ),
        ]
    } else {
        Seq::empty()
    }
}

/// A filter keeps a host name from being reported.
pub open spec fn hidden(filter: events::TrafficFilterView, name: Option<Seq<char>>) -> bool {
    name matches Some(hostname) && !filter.allows_hostname(hostname)
}

/// The DNS message that a packet carries, if it carries one.
pub open spec fn carried_dns(packet: decode::CapturedPacketView) -> Option<dns::DnsSummaryView> {
    if (packet.source.port == 53 || packet.destination.port == 53) && packet.protocol == "udp"@ {
        match dns::dns_summary(packet.payload) {
            Ok(summary) => Some(summary),
            Err(_) => None,
        }
    } else {
        None
    }
}

/// What identifies the query that a message asks or answers.
pub open spec fn query_of(
    packet: decode::CapturedPacketView,
    summary: dns::DnsSummaryView,
) -> queries::QueryView {
    queries::QueryView {
        transaction_id: summary.transaction_id,
        client: flow::key_of(
            if summary.is_response {
                packet.destination
            } else {
                packet.source
            },
        ),
        server: flow::key_of(
            if summary.is_response {
                packet.source
            } else {
                packet.destination
            },
        ),
    }
}

/// The whole milliseconds between two times in nanoseconds.
pub open spec fn elapsed_ms(started: u128, now: u128) -> u128 {
    if now <= started {
        0
    } else {
        ((now - started) / 1_000_000) as u128
    }
}

/// The waiting queries after a message.
pub open spec fn queries_after(
    waiting: queries::QueriesView,
    packet: decode::CapturedPacketView,
    summary: dns::DnsSummaryView,
    now: u128,
) -> queries::QueriesView {
    let key = query_of(packet, summary);
    if summary.is_response {
        waiting.remove(key)
    } else {
        queries::with_query(waiting, key, now)
    }
}

/// How long a response took, if its query was seen.
pub open spec fn latency(
    waiting: queries::QueriesView,
    packet: decode::CapturedPacketView,
    summary: dns::DnsSummaryView,
    now: u128,
) -> Option<u128> {
    let key = query_of(packet, summary);
    if summary.is_response && waiting.contains_key(key) {
        Some(elapsed_ms(waiting[key], now))
    } else {
        None
    }
}

/// An answer in one line.
pub open spec fn answer_line(answer: dns::DnsAnswerView) -> Seq<char> {
    answer.name + " "@ + text::decimal(answer.record_type as nat) + " "@ + answer.value + " ttl="@
        + text::decimal(answer.ttl as nat)
}

/// Answers, one line each.
pub open spec fn answer_lines(answers: Seq<dns::DnsAnswerView>) -> Seq<Seq<char>> {
    Seq::new(answers.len(), |i: int| answer_line(answers[i]))
}

/// What is reported of a DNS message.
pub open spec fn dns_kind(
    summary: dns::DnsSummaryView,
    latency_ms: Option<u128>,
) -> events::EventKindView {
    events::EventKindView::Dns {
        query: summary.query,
        record_type: summary.record_type,
        response_code: Some(summary.response_code),
        transaction_id: summary.transaction_id,
        is_response: summary.is_response,
        answers: answer_lines(summary.answers),
        cname_chain: summary.cname_chain,
        latency_ms,
    }
}

/// What a DNS message adds to a report.
pub open spec fn with_dns(
    report: ReportView,
    observation: flow::ObservationView,
    packet: decode::CapturedPacketView,
    summary: dns::DnsSummaryView,
    now: u128,
) -> ReportView {
    ReportView {
        state: flow::CaptureView {
            queries: queries_after(report.state.queries, packet, summary, now),
            ..report.state
        },
        events: report.events.push(
            flow_event(
                observation,
                packet,
                dns_kind(summary, latency(report.state.queries, packet, summary, now)),
            ),
        ),
    }
}

/// The ClientHello at the start of a stream, if there is one.
pub open spec fn carried_hello(
    packet: decode::CapturedPacketView,
    reassembled: Option<Seq<u8>>,
) -> Option<tls::ClientHelloView> {
    match reassembled {
        Some(stream) => if packet.protocol == "tcp"@ {
            match tls::client_hello(stream) {
                Ok(hello) => Some(hello),
                Err(_) => None,
            }
        } else {
            None
        },
        None => None,
    }
}

/// What is reported of a ClientHello.
pub open spec fn hello_kind(hello: tls::ClientHelloView) -> events::EventKindView {
    events::EventKindView::TlsClientHello {
        sni: hello.sni,
        alpn: hello.alpn,
        tls_version: hello.tls_version,
        cipher_suites: hello.cipher_suites,
    }
}

/// The state after the ClientHello of a flow was reported.
pub open spec fn hello_marked(state: flow::CaptureView, id: Seq<char>) -> flow::CaptureView {
    flow::CaptureView {
        flows: state.flows.insert(
            id,
            flow::FlowView { hello_emitted: true, ..flow::flow_before(state, id) },
        ),
        ..state
    }
}

/// What a ClientHello adds to a report.
pub open spec fn with_hello(
    report: ReportView,
    observation: flow::ObservationView,
    packet: decode::CapturedPacketView,
    hello: tls::ClientHelloView,
) -> ReportView {
    ReportView {
        state: hello_marked(report.state, observation.connection_id),
        events: report.events.push(flow_event(observation, packet, hello_kind(hello))),
    }
}

/// The server certificate in a stream, if there is one that can be read.
pub open spec fn carried_certificate(
    packet: decode::CapturedPacketView,
    reassembled: Option<Seq<u8>>,
) -> Option<certificate::CertificateSummaryView> {
    match reassembled {
        Some(stream) => if packet.protocol == "tcp"@ {
            match tls::certificate_at(stream, 0) {
                Ok(der) => match certificate::summary_of(outside::x509_certificate(der)) {
                    Ok(summary) => Some(summary),
                    Err(_) => None,
                },
                Err(_) => None,
            }
        } else {
            None
        },
        None => None,
    }
}

/// What is reported of a certificate.
pub open spec fn certificate_event_kind(
    summary: certificate::CertificateSummaryView,
) -> events::EventKindView {
    events::EventKindView::TlsCertificate {
        subject: Some(summary.subject),
        issuer: Some(summary.issuer),
        serial: Some(summary.serial),
        not_after: Some(summary.not_after),
    }
}

/// The state after the certificate of a flow was reported.
pub open spec fn certificate_marked(state: flow::CaptureView, id: Seq<char>) -> flow::CaptureView {
    flow::CaptureView {
        flows: state.flows.insert(
            id,
            flow::FlowView { certificate_emitted: true, ..flow::flow_before(state, id) },
        ),
        ..state
    }
}

/// What a certificate adds to a report: an event, unless one was reported for this flow before.
pub open spec fn with_certificate(
    report: ReportView,
    observation: flow::ObservationView,
    packet: decode::CapturedPacketView,
    found: Option<certificate::CertificateSummaryView>,
) -> ReportView {
    match found {
        Some(summary) => if flow::flow_before(
            report.state,
            observation.connection_id,
        ).certificate_emitted {
            report
        } else {
            ReportView {
                state: certificate_marked(report.state, observation.connection_id),
                events: report.events.push(
                    flow_event(observation, packet, certificate_event_kind(summary)),
                ),
            }
        },
        None => report,
    }
}

/// What a stream adds to a report: its ClientHello once for each flow, and its certificate once.
pub open spec fn with_tls(
    report: ReportView,
    observation: flow::ObservationView,
    packet: decode::CapturedPacketView,
    filter: events::TrafficFilterView,
    hello: Option<tls::ClientHelloView>,
    found: Option<certificate::CertificateSummaryView>,
) -> ReportView {
    match hello {
        Some(offer) => if hidden(filter, offer.sni) || flow::flow_before(
            report.state,
            observation.connection_id,
        ).hello_emitted {
            report
        } else {
            with_certificate(
                with_hello(report, observation, packet, offer),
                observation,
                packet,
                found,
            )
        },
        None => with_certificate(report, observation, packet, found),
    }
}

/// What an admitted packet adds by itself.
pub open spec fn packet_report(
    state: flow::CaptureView,
    packet: decode::CapturedPacketView,
) -> ReportView {
    let observation = flow::observation(state, packet);
    ReportView {
        state: flow::observed_state(state, packet),
        events: seq![packet_event(observation, packet)] + opened_events(observation, packet)
            + closed_events(observation, packet),
    }
}

/// What a packet leads to, given the stream that it completes and what that stream holds.
pub open spec fn report_with(
    state: flow::CaptureView,
    packet: decode::CapturedPacketView,
    filter: events::TrafficFilterView,
    now: u128,
    hello: Option<tls::ClientHelloView>,
    found: Option<certificate::CertificateSummaryView>,
) -> ReportView {
    let observation = flow::observation(state, packet);
    let first = packet_report(state, packet);
    if !packet_allowed(filter, packet) {
        ReportView { state, events: Seq::empty() }
    } else {
        match carried_dns(packet) {
            Some(summary) => if hidden(filter, summary.query) {
                first
            } else {
                with_tls(
                    with_dns(first, observation, packet, summary, now),
                    observation,
                    packet,
                    filter,
                    hello,
                    found,
                )
            },
            None => with_tls(first, observation, packet, filter, hello, found),
        }
    }
}

/// What a packet leads to, given the stream that it completes.
pub open spec fn report(
    state: flow::CaptureView,
    packet: decode::CapturedPacketView,
    filter: events::TrafficFilterView,
    reassembled: Option<Seq<u8>>,
    now: u128,
) -> ReportView {
    report_with(
        state,
        packet,
        filter,
        now,
        carried_hello(packet, reassembled),
        carried_certificate(packet, reassembled),
    )
}

/// The key of the stream that a packet belongs to.
pub open spec fn stream_key(packet: decode::CapturedPacketView) -> Seq<char> {
    flow::key_of(packet.source) + ">"@ + flow::key_of(packet.destination)
}

/// How many sequence numbers the flags of a packet take.
pub open spec fn flag_space(tcp: Option<decode::TcpMetadataView>) -> u32 {
    if flow::has_flag(tcp, "SYN"@) || flow::has_flag(tcp, "FIN"@) {
        1
    } else {
        0
    }
}

/// The streams after a packet.
pub open spec fn streams_after(
    streams: reassembly::StreamsView,
    packet: decode::CapturedPacketView,
) -> reassembly::StreamsView {
    match packet.tcp {
        Some(metadata) => if packet.protocol == "tcp"@ && packet.payload.len() > 0 {
            reassembly::pushed(
                streams,
                stream_key(packet),
                metadata.sequence_number,
                packet.payload,
                flag_space(packet.tcp),
            )
        } else {
            streams
        },
        None => streams,
    }
}

/// The stream that a packet completes, if it continues one.
pub open spec fn completed_stream(
    streams: reassembly::StreamsView,
    packet: decode::CapturedPacketView,
) -> Option<Seq<u8>> {
    match packet.tcp {
        Some(metadata) => if packet.protocol == "tcp"@ && packet.payload.len() > 0
            && reassembly::continues(streams, stream_key(packet), metadata.sequence_number) {
            Some(
                reassembly::joined(
                    streams,
                    stream_key(packet),
                    metadata.sequence_number,
                    packet.payload,
                ),
            )
        } else {
            None
        },
        None => None,
    }
}

/// What a packet leads to when streams are put together.
pub open spec fn stateful_report(
    state: flow::CaptureView,
    packet: decode::CapturedPacketView,
    filter: events::TrafficFilterView,
    now: u128,
) -> ReportView {
    report(
        flow::CaptureView { streams: streams_after(state.streams, packet), ..state },
        packet,
        filter,
        completed_stream(state.streams, packet),
        now,
    )
}

// ---------------------------------------------------------------------------------------------
// Reporting
// ---------------------------------------------------------------------------------------------

/// Decides whether a protocol of a filter names the protocol of a packet.
pub fn protocol_matches(filter_protocol: &str, packet_protocol: &str) -> (r: bool)
    ensures
        r == protocol_fits(filter_protocol@, packet_protocol@),
{
    let wanted = text::lower_text(filter_protocol);
    text::eq_ignore_case(filter_protocol, packet_protocol) || ((text::text_eq(
        wanted.as_str(),
        "icmp6",
    ) || text::text_eq(wanted.as_str(), "icmpv6")) && text::text_eq(packet_protocol, "icmpv6"))
}

/// Decides whether a filter admits a protocol.
fn matches_protocol(filter: &TrafficFilter, protocol: &str) -> (r: bool)
    ensures
        r == protocol_allowed(filter@, protocol@),
{
    if filter.protocols.len() == 0 {
        return true;
    }
    let mut i: usize = 0;
    while i < filter.protocols.len()
        invariant
            i <= filter.protocols@.len(),
            forall|k: int|
                0 <= k < i ==> !protocol_fits(#[trigger] filter@.protocols[k], protocol@),
        decreases filter.protocols@.len() - i,
    {
        assert(filter@.protocols[i as int] == filter.protocols@[i as int]@);
        if protocol_matches(filter.protocols[i].as_str(), protocol) {
            return true;
        }
        i += 1;
    }
    false
}

/// Notes what is unusual about a packet.
fn note_anomalies(observation: &FlowObservation) -> (r: TextMap<bool>)
    ensures
        r@ == anomalies(observation@),
{
    let mut attributes: TextMap<bool> = TextMap::new();
    if observation.duplicate_ack {
        attributes.insert("duplicate_ack".to_owned(), true);
    }
    if observation.retransmitted_segment {
        attributes.insert("retransmitted_segment".to_owned(), true);
    }
    if observation.out_of_order {
        attributes.insert("out_of_order".to_owned(), true);
    }
    if observation.zero_window_probe {
        attributes.insert("zero_window_probe".to_owned(), true);
    }
    attributes
}

/// Makes an event about a flow.
fn draft(
    observation: &FlowObservation,
    source: &Endpoint,
    destination: &Endpoint,
    kind: EventKind,
) -> (r: EventDraft)
    ensures
        r@ == events::plain_draft(
            observation@.connection_id,
            observation@.direction,
            source@,
            destination@,
            kind@,
        ),
{
    EventDraft::new(
        observation.connection_id.clone(),
        observation.direction,
        source.clone(),
        destination.clone(),
        kind,
    )
}

/// Makes the event about a packet itself.
fn draft_packet(observation: &FlowObservation, packet: CapturedPacket) -> (r: EventDraft)
    ensures
        r@ == packet_event(observation@, packet@),
{
    let attributes = note_anomalies(observation);
    let source = packet.source.clone();
    let destination = packet.destination.clone();
    let length: usize = packet.payload.len();
    let (tcp_flags, sequence_number, acknowledgement_number, window_size, tcp_options) =
        match packet.tcp {
        Some(metadata) => (
            Some(metadata.flags),
            Some(metadata.sequence_number),
            Some(metadata.acknowledgement_number),
            Some(metadata.window_size),
            Some(metadata.options),
        ),
        None => (None, None, None, None, None),
    };
    let kind = EventKind::Packet {
        interface: packet.interface,
        protocol: packet.protocol,
        length,
        captured_length: packet.captured_length,
        wire_length: packet.wire_length,
        payload_length: length,
        ip_version: packet.ip_version,
        ttl_or_hop_limit: packet.ttl_or_hop_limit,
        fragmentation: packet.fragmentation,
        tcp_flags,
        sequence_number,
        acknowledgement_number,
        window_size,
        tcp_options,
        udp_length: packet.udp_length,
        icmp_type: packet.icmp_type,
        icmp_code: packet.icmp_code,
        raw_packet: packet.raw_packet,
    };
    EventDraft {
        connection_id: observation.connection_id.clone(),
        direction: observation.direction,
        source,
        destination,
        kind,
        attributes,
    }
}

/// Writes an answer in one line.
fn format_answer(answer: &DnsAnswer) -> (r: String)
    ensures
        r@ == answer_line(answer@),
{
    let mut line = answer.name.clone();
    line.append(" ");
    text::push_decimal(&mut line, answer.record_type as u128);
    line.append(" ");
    line.append(answer.value.as_str());
    line.append(" ttl=");
    text::push_decimal(&mut line, answer.ttl as u128);
    line
}

/// Writes answers, one line each.
fn format_answers(answers: &[DnsAnswer]) -> (r: Vec<String>)
    ensures
        text::texts(r@) == answer_lines(dns::answer_views(answers@)),
{
    let mut lines: Vec<String> = Vec::new();
    let ghost all = answer_lines(dns::answer_views(answers@));
    let mut i: usize = 0;
    while i < answers.len()
        invariant
            i <= answers@.len(),
            all == answer_lines(dns::answer_views(answers@)),
            text::texts(lines@) =~= all.take(i as int),
        decreases answers@.len() - i,
    {
        let ghost before = lines@;
        let line = format_answer(&answers[i]);
        lines.push(line);
        assert(text::texts(lines@) =~= text::texts(before).push(line@));
        assert(all[i as int] == line@);
        i += 1;
    }
    assert(text::texts(lines@) =~= all);
    lines
}

/// Decides whether a filter keeps a host name from being reported.
fn hides(filter: &TrafficFilter, name: &Option<String>) -> (r: bool)
    ensures
        r == hidden(filter@, text::opt_text(*name)),
{
    match name {
        Some(hostname) => !filter.matches_hostname(hostname.as_str()),
        None => false,
    }
}

/// Describes a certificate.
pub fn certificate_kind(summary: CertificateSummary) -> (r: EventKind)
    ensures
        r@ == certificate_event_kind(summary@),
{
    EventKind::TlsCertificate {
        subject: Some(summary.subject),
        issuer: Some(summary.issuer),
        serial: Some(summary.serial),
        not_after: Some(summary.not_after),
    }
}

/// The model of a ClientHello that may be absent.
pub open spec fn hello_view(hello: Option<ClientHello>) -> Option<tls::ClientHelloView> {
    match hello {
        Some(offer) => Some(offer@),
        None => None,
    }
}

/// The model of a certificate that may be absent.
pub open spec fn certificate_view(found: Option<CertificateSummary>) -> Option<
    certificate::CertificateSummaryView,
> {
    match found {
        Some(summary) => Some(summary@),
        None => None,
    }
}

/// The model of bytes that may be absent.
pub open spec fn bytes_view(bytes: Option<&[u8]>) -> Option<Seq<u8>> {
    match bytes {
        Some(b) => Some(b@),
        None => None,
    }
}

/// Reads the DNS message that a packet carries.
fn read_dns(packet: &CapturedPacket) -> (r: Option<DnsSummary>)
    ensures
        match r {
            Some(summary) => carried_dns(packet@) == Some(summary@),
            None => carried_dns(packet@) is None,
        },
{
    if (packet.source.port == 53 || packet.destination.port == 53) && text::text_eq(
        packet.protocol.as_str(),
        "udp",
    ) {
        match dns::parse_dns(&packet.payload) {
            Ok(summary) => Some(summary),
            Err(_) => None,
        }
    } else {
        None
    }
}

/// Reads the ClientHello at the start of a stream.
fn read_hello(packet: &CapturedPacket, reassembled: Option<&[u8]>) -> (r: Option<ClientHello>)
    ensures
        hello_view(r) == carried_hello(packet@, bytes_view(reassembled)),
{
    match reassembled {
        Some(stream) => {
            if !text::text_eq(packet.protocol.as_str(), "tcp") {
                return None;
            }
            match tls::parse_client_hello(stream) {
                Ok(hello) => Some(hello),
                Err(_) => None,
            }
        },
        None => None,
    }
}

/// Reads the server certificate in a stream.
fn read_certificate(packet: &CapturedPacket, reassembled: Option<&[u8]>) -> (r: Option<
    CertificateSummary,
>)
    ensures
        certificate_view(r) == carried_certificate(packet@, bytes_view(reassembled)),
{
    match reassembled {
        Some(stream) => {
            if !text::text_eq(packet.protocol.as_str(), "tcp") {
                return None;
            }
            match tls::parse_server_certificate(stream) {
                Ok(der) => match certificate::parse_certificate(&der) {
                    Ok(summary) => Some(summary),
                    Err(_) => None,
                },
                Err(_) => None,
            }
        },
        None => None,
    }
}

impl CaptureState {
    /// Takes a flow out of the state.
    fn take_flow(&mut self, connection_id: &str) -> (r: FlowState)
        ensures
            r@ == flow::flow_before(old(self)@, connection_id@),
            final(self)@ == (flow::CaptureView {
                flows: old(self)@.flows.remove(connection_id@),
                ..old(self)@
            }),
    {
        match self.flows.remove(connection_id) {
            Some(state) => state,
            None => FlowState::new(),
        }
    }

    /// Marks the ClientHello of a flow as reported; says whether it was not before.
    pub fn mark_tls_client_hello(&mut self, connection_id: &str) -> (r: bool)
        ensures
            final(self)@ == hello_marked(old(self)@, connection_id@),
            r == !flow::flow_before(old(self)@, connection_id@).hello_emitted,
    {
        let ghost before = self@;
        let mut state = self.take_flow(connection_id);
        let first = !state.tls_client_hello_emitted;
        state.tls_client_hello_emitted = true;
        self.flows.insert(connection_id.to_owned(), state);
        assert(self@ =~= hello_marked(before, connection_id@));
        first
    }

    /// Marks the certificate of a flow as reported; says whether it was not before.
    pub fn mark_tls_certificate(&mut self, connection_id: &str) -> (r: bool)
        ensures
            final(self)@ == certificate_marked(old(self)@, connection_id@),
            r == !flow::flow_before(old(self)@, connection_id@).certificate_emitted,
    {
        let ghost before = self@;
        let mut state = self.take_flow(connection_id);
        let first = !state.tls_certificate_emitted;
        state.tls_certificate_emitted = true;
        self.flows.insert(connection_id.to_owned(), state);
        assert(self@ =~= certificate_marked(before, connection_id@));
        first
    }

    /// Matches a DNS message with the queries that wait, and says how long a response took.
    fn match_query(
        &mut self,
        source: &Endpoint,
        destination: &Endpoint,
        summary: &DnsSummary,
        now: u128,
        packet: Ghost<decode::CapturedPacketView>,
    ) -> (r: Option<u128>)
        requires
            packet@.source == source@,
            packet@.destination == destination@,
        ensures
            r == latency(old(self)@.queries, packet@, summary@, now),
            final(self)@ == (flow::CaptureView {
                queries: queries_after(old(self)@.queries, packet@, summary@, now),
                ..old(self)@
            }),
    {
        if summary.is_response {
            let client = flow::endpoint_key(destination);
            let server = flow::endpoint_key(source);
            match self.dns_queries.remove(
                summary.transaction_id,
                client.as_str(),
                server.as_str(),
            ) {
                Some(started) => Some(
                    if now <= started {
                        0
                    } else {
                        (now - started) / 1_000_000
                    },
                ),
                None => None,
            }
        } else {
            let client = flow::endpoint_key(source);
            let server = flow::endpoint_key(destination);
            self.dns_queries.insert(summary.transaction_id, client, server, now);
            None
        }
    }

    /// Reports a packet, given the ClientHello and the certificate in the stream it completes.
    pub fn report_packet(
        &mut self,
        packet: CapturedPacket,
        filter: &TrafficFilter,
        now: u128,
        hello: Option<ClientHello>,
        found: Option<CertificateSummary>,
    ) -> (r: Vec<EventDraft>)
        ensures
            (ReportView { state: final(self)@, events: events::draft_views(r@) }) == report_with(
                old(self)@,
                packet@,
                filter@,
                now,
                hello_view(hello),
                certificate_view(found),
            ),
    {
        let ghost model = packet@;
        let ghost before = self@;
        let mut drafts: Vec<EventDraft> = Vec::new();
        if !matches_protocol(filter, packet.protocol.as_str()) || !filter.matches_packet(
            packet.interface.as_str(),
            &packet.source,
            &packet.destination,
        ) {
            assert(events::draft_views(drafts@) =~= Seq::empty());
            return drafts;
        }
        let observation = self.observe(&packet);
        let summary = read_dns(&packet);
        let source = packet.source.clone();
        let destination = packet.destination.clone();
        let protocol = packet.protocol.clone();
        drafts.push(draft_packet(&observation, packet));
        if observation.opened {
            drafts.push(
                draft(
                    &observation,
                    &source,
                    &destination,
                    EventKind::ConnectionOpened { transport: protocol },
                ),
            );
        }
        if let Some(reason) = &observation.closed {
            drafts.push(
                draft(
                    &observation,
                    &source,
                    &destination,
                    EventKind::ConnectionClosed { reason: Some(reason.clone()) },
                ),
            );
        }
        let ghost first = packet_report(before, model);
        assert(events::draft_views(drafts@) =~= first.events);
        if let Some(message) = summary {
            if hides(filter, &message.query) {
                return drafts;
            }
            let latency_ms = self.match_query(
                &source,
                &destination,
                &message,
                now,
                Ghost(model),
            );
            let answers = format_answers(&message.answers);
            let ghost step = with_dns(first, observation@, model, message@, now);
            drafts.push(
                draft(
                    &observation,
                    &source,
                    &destination,
                    EventKind::Dns {
                        query: message.query,
                        record_type: message.record_type,
                        response_code: Some(message.response_code),
                        transaction_id: message.transaction_id,
                        is_response: message.is_response,
                        answers,
                        cname_chain: message.cname_chain,
                        latency_ms,
                    },
                ),
            );
            assert(events::draft_views(drafts@) =~= step.events);
            assert(self@ =~= step.state);
        }
        let ghost middle = ReportView { state: self@, events: events::draft_views(drafts@) };
        if let Some(offer) = hello {
            if hides(filter, &offer.sni) {
                return drafts;
            }
            if !self.mark_tls_client_hello(observation.connection_id.as_str()) {
                assert(self@ =~= middle.state) by {
                    let id = observation@.connection_id;
                    assert(middle.state.flows.contains_key(id));
                    assert(self@.flows =~= middle.state.flows);
                }
                return drafts;
            }
            drafts.push(
                draft(
                    &observation,
                    &source,
                    &destination,
                    EventKind::TlsClientHello {
                        sni: offer.sni,
                        alpn: offer.alpn,
                        tls_version: offer.tls_version,
                        cipher_suites: offer.cipher_suites,
                    },
                ),
            );
            assert(events::draft_views(drafts@) =~= with_hello(
                middle,
                observation@,
                model,
                offer@,
            ).events);
        }
        let ghost last = ReportView { state: self@, events: events::draft_views(drafts@) };
        if let Some(leaf) = found {
            if self.mark_tls_certificate(observation.connection_id.as_str()) {
                drafts.push(draft(&observation, &source, &destination, certificate_kind(leaf)));
                assert(events::draft_views(drafts@) =~= with_certificate(
                    last,
                    observation@,
                    model,
                    Some(leaf@),
                ).events);
            } else {
                assert(self@ =~= last.state) by {
                    let id = observation@.connection_id;
                    assert(last.state.flows.contains_key(id));
                    assert(self@.flows =~= last.state.flows);
                }
            }
        }
        drafts
    }

    /// Reports a packet, given the stream that it completes.
    pub fn emit_packet_state(
        &mut self,
        packet: CapturedPacket,
        filter: &TrafficFilter,
        reassembled_payload: Option<&[u8]>,
        now: u128,
    ) -> (r: Vec<EventDraft>)
        ensures
            (ReportView { state: final(self)@, events: events::draft_views(r@) }) == report(
                old(self)@,
                packet@,
                filter@,
                bytes_view(reassembled_payload),
                now,
            ),
    {
        let hello = read_hello(&packet, reassembled_payload);
        let found = read_certificate(&packet, reassembled_payload);
        self.report_packet(packet, filter, now, hello, found)
    }

    /// Reports a packet after putting its stream together. Times are in nanoseconds.
    pub fn emit_reassembled_packet(
        &mut self,
        packet: CapturedPacket,
        filter: &TrafficFilter,
        now: u128,
    ) -> (r: Vec<EventDraft>)
        ensures
            (ReportView { state: final(self)@, events: events::draft_views(r@) })
                == stateful_report(old(self)@, packet@, filter@, now),
    {
        let ghost before = self@;
        let mut reassembled: Option<Vec<u8>> = None;
        if let Some(metadata) = &packet.tcp {
            if text::text_eq(packet.protocol.as_str(), "tcp") && packet.payload.len() > 0 {
                let mut key = flow::endpoint_key(&packet.source);
                key.append(">");
                let end = flow::endpoint_key(&packet.destination);
                key.append(end.as_str());
                let consumed: u32 = if flow::flag_set(&packet.tcp, "SYN") || flow::flag_set(
                    &packet.tcp,
                    "FIN",
                ) {
                    1
                } else {
                    0
                };
                reassembled =
                self.reassembler.push_segment(
                    key,
                    metadata.sequence_number,
                    &packet.payload,
                    consumed,
                );
            }
        }
        assert(self@ =~= (flow::CaptureView {
            streams: streams_after(before.streams, packet@),
            ..before
        }));
        match &reassembled {
            Some(stream) => self.emit_packet_state(packet, filter, Some(stream.as_slice()), now),
            None => self.emit_packet_state(packet, filter, None, now),
        }
    }
}

/// Emits one decoded packet without retaining flow state. Live capture uses the stateful variant.
pub fn emit_packet(packet: CapturedPacket, filter: &TrafficFilter, now: u128) -> (r: Vec<EventDraft>)
    ensures
        events::draft_views(r@) == report(
            flow::initial_state(),
            packet@,
            filter@,
            None,
            now,
        ).events,
{
    let mut state = CaptureState::default();
    state.emit_packet_state(packet, filter, None, now)
}

// ---------------------------------------------------------------------------------------------
// Laws
// ---------------------------------------------------------------------------------------------

/// A packet that the filter does not admit gives no event and changes nothing but its stream.
pub proof fn refused_packets_leave_no_trace(
    state: flow::CaptureView,
    packet: decode::CapturedPacketView,
    filter: events::TrafficFilterView,
    now: u128,
)
    requires
        !packet_allowed(filter, packet),
    ensures
        stateful_report(state, packet, filter, now) == (ReportView {
            state: flow::CaptureView { streams: streams_after(state.streams, packet), ..state },
            events: Seq::empty(),
        }),
{
}

/// Every admitted packet gives an event about the packet itself, before all others.
pub proof fn packet_event_comes_first(
    state: flow::CaptureView,
    packet: decode::CapturedPacketView,
    filter: events::TrafficFilterView,
    reassembled: Option<Seq<u8>>,
    now: u128,
)
    requires
        packet_allowed(filter, packet),
    ensures
        report(state, packet, filter, reassembled, now).events.len() >= 1,
        report(state, packet, filter, reassembled, now).events[0] == packet_event(
            flow::observation(state, packet),
            packet,
        ),
{
}

/// An event is about the connection, the direction and the endpoints of a packet.
pub open spec fn is_about(
    event: events::EventDraftView,
    observation: flow::ObservationView,
    packet: decode::CapturedPacketView,
) -> bool {
    &&& event.connection_id == observation.connection_id
    &&& event.direction == observation.direction
    &&& event.source == packet.source
    &&& event.destination == packet.destination
}

/// All events of a sequence are about a packet.
pub open spec fn all_about(
    list: Seq<events::EventDraftView>,
    observation: flow::ObservationView,
    packet: decode::CapturedPacketView,
) -> bool {
    forall|i: int| 0 <= i < list.len() ==> is_about(#[trigger] list[i], observation, packet)
}

proof fn lemma_tls_about(
    first: ReportView,
    observation: flow::ObservationView,
    packet: decode::CapturedPacketView,
    filter: events::TrafficFilterView,
    hello: Option<tls::ClientHelloView>,
    found: Option<certificate::CertificateSummaryView>,
)
    requires
        all_about(first.events, observation, packet),
    ensures
        all_about(
            with_tls(first, observation, packet, filter, hello, found).events,
            observation,
            packet,
        ),
{
    if let Some(offer) = hello {
        assert(all_about(
            with_hello(first, observation, packet, offer).events,
            observation,
            packet,
        ));
    }
}

/// All events that a packet gives are about its connection, its direction and its endpoints.
pub proof fn events_share_their_flow(
    state: flow::CaptureView,
    packet: decode::CapturedPacketView,
    filter: events::TrafficFilterView,
    reassembled: Option<Seq<u8>>,
    now: u128,
)
    ensures
        all_about(
            report(state, packet, filter, reassembled, now).events,
            flow::observation(state, packet),
            packet,
        ),
{
    let observation = flow::observation(state, packet);
    let first = packet_report(state, packet);
    let hello = carried_hello(packet, reassembled);
    let found = carried_certificate(packet, reassembled);
    assert(all_about(first.events, observation, packet));
    lemma_tls_about(first, observation, packet, filter, hello, found);
    if let Some(summary) = carried_dns(packet) {
        let second = with_dns(first, observation, packet, summary, now);
        assert(all_about(second.events, observation, packet));
        lemma_tls_about(second, observation, packet, filter, hello, found);
    }
}

/// A ClientHello is reported at most once for each flow: only where none was reported before, and
/// the flow remembers it from then on.
pub proof fn hellos_are_reported_once(
    state: flow::CaptureView,
    packet: decode::CapturedPacketView,
    filter: events::TrafficFilterView,
    reassembled: Option<Seq<u8>>,
    now: u128,
)
    ensures
        ({
            let id = flow::packet_flow_id(packet);
            let after = report(state, packet, filter, reassembled, now);
            let before = flow::flow_before(state, id).hello_emitted;
            &&& before ==> flow::flow_before(after.state, id).hello_emitted
            &&& forall|i: int|
                0 <= i < after.events.len() && (#[trigger] after.events[i]).kind is TlsClientHello
                    ==> !before && flow::flow_before(after.state, id).hello_emitted
            &&& forall|i: int, j: int|
                0 <= i < j < after.events.len() && (#[trigger] after.events[i]).kind
                    is TlsClientHello ==> !((#[trigger] after.events[j]).kind is TlsClientHello)
        }),
{
}

/// A certificate is reported at most once for each flow: only where none was reported before, and
/// the flow remembers it from then on.
pub proof fn certificates_are_reported_once(
    state: flow::CaptureView,
    packet: decode::CapturedPacketView,
    filter: events::TrafficFilterView,
    reassembled: Option<Seq<u8>>,
    now: u128,
)
    ensures
        ({
            let id = flow::packet_flow_id(packet);
            let after = report(state, packet, filter, reassembled, now);
            let before = flow::flow_before(state, id).certificate_emitted;
            &&& before ==> flow::flow_before(after.state, id).certificate_emitted
            &&& forall|i: int|
                0 <= i < after.events.len() && (#[trigger] after.events[i]).kind is TlsCertificate
                    ==> !before && flow::flow_before(after.state, id).certificate_emitted
            &&& forall|i: int, j: int|
                0 <= i < j < after.events.len() && (#[trigger] after.events[i]).kind
                    is TlsCertificate ==> !((#[trigger] after.events[j]).kind is TlsCertificate)
        }),
{
}

/// A response the other way with the number of a query is reported with the whole milliseconds
/// since the query, and the query waits no longer.
pub proof fn responses_are_timed(
    waiting: queries::QueriesView,
    query: decode::CapturedPacketView,
    asked: dns::DnsSummaryView,
    sent: u128,
    response: decode::CapturedPacketView,
    answered: dns::DnsSummaryView,
    received: u128,
)
    requires
        !asked.is_response,
        answered.is_response,
        answered.transaction_id == asked.transaction_id,
        response.source == query.destination,
        response.destination == query.source,
    ensures
        ({
            let after = queries_after(waiting, query, asked, sent);
            &&& latency(after, response, answered, received) == Some(elapsed_ms(sent, received))
            &&& latency(
                queries_after(after, response, answered, received),
                response,
                answered,
                received,
            ) is None
        }),
{
}

/// Everything that is remembered between packets is bounded.
pub open spec fn state_bounded(state: flow::CaptureView) -> bool {
    &&& reassembly::streams_bounded(state.streams)
    &&& flow::flows_bounded(state.flows)
    &&& state.queries.dom().finite()
    &&& state.queries.len() <= queries::MAX_OUTSTANDING_QUERIES
}

/// Whatever packets arrive, each stream keeps at most its share of bytes, each direction at most
/// its share of segments, and no more queries wait than may.
pub proof fn capture_state_stays_bounded(
    state: flow::CaptureView,
    packet: decode::CapturedPacketView,
    filter: events::TrafficFilterView,
    now: u128,
)
    requires
        state_bounded(state),
    ensures
        state_bounded(flow::initial_state()),
        state_bounded(stateful_report(state, packet, filter, now).state),
{
    let first = flow::CaptureView { streams: streams_after(state.streams, packet), ..state };
    let after = stateful_report(state, packet, filter, now).state;
    let id = flow::packet_flow_id(packet);
    assert(reassembly::streams_bounded(after.streams)) by {
        if let Some(metadata) = packet.tcp {
            reassembly::reassembly_stays_bounded(
                state.streams,
                stream_key(packet),
                metadata.sequence_number,
                packet.payload,
                flag_space(packet.tcp),
            );
        }
    }
    assert(state_bounded(flow::initial_state())) by {
        assert(queries::QueriesView::empty().dom() =~= Set::empty());
    }
    assert(after.queries.dom().finite() && after.queries.len()
        <= queries::MAX_OUTSTANDING_QUERIES) by {
        if let Some(summary) = carried_dns(packet) {
            queries::outstanding_queries_stay_bounded(
                state.queries,
                query_of(packet, summary),
                now,
            );
        }
    }
    flow::remembered_segments_stay_bounded(first, packet);
    let observed = flow::observed_state(first, packet).flows;
    assert(flow::flows_bounded(after.flows)) by {
        assert forall|k: Seq<char>, key: Seq<char>|
            after.flows.contains_key(k) && after.flows[k].directions.contains_key(key) implies (
        #[trigger] after.flows[k].directions[key]).seen.finite()
            && after.flows[k].directions[key].seen.len() <= flow::MAX_SEEN_SEGMENTS by {
            if packet_allowed(filter, packet) {
                assert(observed.contains_key(k));
                assert(after.flows[k].directions == observed[k].directions);
                assert(observed[k].directions[key].seen.finite());
            } else {
                assert(state.flows[k].directions[key].seen.finite());
            }
        }
    }
}

} // verus!
