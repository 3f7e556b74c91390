//! Promises about captured packets: which are admitted, and which events they give.
use crate::addr;
use crate::capture::bpf;
use crate::capture::decode::CapturedPacketView;
use crate::capture::flow;
use crate::capture::flow::{CaptureView, ObservationView};
use crate::capture::queries;
use crate::capture::queries::{QueriesView, QueryView};
use crate::capture::reassembly;
use crate::capture::reassembly::StreamsView;
use crate::capture::report;
use crate::events::{EndpointView, EventDraftView, EventKindView, TrafficFilterView};
use crate::outside;
use crate::parsers::certificate;
use crate::parsers::certificate::CertificateSummaryView;
use crate::parsers::dns;
use crate::parsers::dns::DnsSummaryView;
use crate::parsers::tls;
use crate::parsers::tls::ClientHelloView;
use crate::text;
use vstd::prelude::*;

verus! {

// ---------------------------------------------------------------------------------------------
// Which packets are admitted
// ---------------------------------------------------------------------------------------------

/// An endpoint has one of some addresses.
pub open spec fn has_address(filter: TrafficFilterView, endpoint: EndpointView) -> bool {
    addr::ip_value(endpoint.host) matches Some(ip) && filter.ips.contains(ip)
}

/// A protocol of a filter means that of a packet: in whatever case, and version 6 of the control
/// protocol by either of its names.
pub open spec fn means_protocol(wanted: Seq<char>, protocol: Seq<char>) -> bool {
    ||| text::lower(wanted) == text::lower(protocol)
    ||| protocol == "icmpv6"@ && text::lower(wanted) == "icmp6"@
    ||| protocol == "icmpv6"@ && text::lower(wanted) == "icmpv6"@
}

/// A filter admits a packet: each list that is not empty holds the protocol, the interface, one of
/// the two ports and one of the two addresses of the packet.
pub open spec fn admits(filter: TrafficFilterView, packet: CapturedPacketView) -> bool {
    &&& filter.protocols.len() == 0 || exists|i: int|
        0 <= i < filter.protocols.len() && means_protocol(
            #[trigger] filter.protocols[i],
            packet.protocol,
        )
    &&& filter.interfaces.len() == 0 || filter.interfaces.contains(packet.interface)
    &&& filter.ports.len() == 0 || filter.ports.contains(packet.source.port)
        || filter.ports.contains(packet.destination.port)
    &&& filter.ips.len() == 0 || has_address(filter, packet.source) || has_address(
        filter,
        packet.destination,
    )
}

/// A filter lists a host name, in whatever case, or lists none at all.
pub open spec fn admits_name(filter: TrafficFilterView, name: Seq<char>) -> bool {
    filter.hostnames.len() == 0 || exists|i: int|
        0 <= i < filter.hostnames.len() && text::lower(#[trigger] filter.hostnames[i])
            == text::lower(name)
}

proof fn lemma_admits(filter: TrafficFilterView, packet: CapturedPacketView)
    ensures
        report::packet_allowed(filter, packet) == admits(filter, packet),
{
    if admits(filter, packet) && filter.protocols.len() > 0 {
        let i = choose|i: int|
            0 <= i < filter.protocols.len() && means_protocol(
                #[trigger] filter.protocols[i],
                packet.protocol,
            );
        assert(report::protocol_fits(filter.protocols[i], packet.protocol));
    }
    if report::packet_allowed(filter, packet) && filter.protocols.len() > 0 {
        let i = choose|i: int|
            0 <= i < filter.protocols.len() && report::protocol_fits(
                #[trigger] filter.protocols[i],
                packet.protocol,
            );
        assert(means_protocol(filter.protocols[i], packet.protocol));
    }
}

/// A packet gives events exactly where the filter admits it.
pub proof fn admitted_packets_are_reported(
    state: CaptureView,
    packet: CapturedPacketView,
    filter: TrafficFilterView,
    reassembled: Option<Seq<u8>>,
    now: u128,
)
    ensures
        (report::report(state, packet, filter, reassembled, now).events.len() > 0) == admits(
            filter,
            packet,
        ),
        !admits(filter, packet) ==> report::report(state, packet, filter, reassembled, now).state
            == state,
{
    lemma_admits(filter, packet);
    if admits(filter, packet) {
        report::packet_event_comes_first(state, packet, filter, reassembled, now);
    }
}

/// A filter admits an endpoint where each list that is not empty holds its port, its name and its
/// address; it admits a host name where it lists it, in whatever case, or lists none.
pub proof fn endpoints_are_admitted(filter: TrafficFilterView, endpoint: EndpointView)
    ensures
        filter.allows_hostname(endpoint.host) == admits_name(filter, endpoint.host),
        filter.allows_endpoint(endpoint) == ((filter.ports.len() == 0 || filter.ports.contains(
            endpoint.port,
        )) && admits_name(filter, endpoint.host) && (filter.ips.len() == 0 || has_address(
            filter,
            endpoint,
        ))),
{
}

/// A packet is admitted by interface, ports and addresses as by the whole filter, with the
/// protocol left out.
pub proof fn packets_are_matched(
    filter: TrafficFilterView,
    interface: Seq<char>,
    source: EndpointView,
    destination: EndpointView,
)
    ensures
        filter.allows_packet(interface, source, destination) == ((filter.interfaces.len() == 0
            || filter.interfaces.contains(interface)) && (filter.ports.len() == 0
            || filter.ports.contains(source.port) || filter.ports.contains(destination.port)) && (
        filter.ips.len() == 0 || has_address(filter, source) || has_address(filter, destination))),
{
}

// ---------------------------------------------------------------------------------------------
// Which events a packet gives
// ---------------------------------------------------------------------------------------------

/// An event is about the flow of a packet.
pub open spec fn concerns(
    event: EventDraftView,
    seen: ObservationView,
    packet: CapturedPacketView,
) -> bool {
    &&& event.connection_id == seen.connection_id
    &&& event.direction == seen.direction
    &&& event.source == packet.source
    &&& event.destination == packet.destination
}

/// The first event of an admitted packet holds what was decoded of the packet, and an attribute
/// for each thing that is unusual about it, and no other attribute.
pub proof fn packets_are_described(
    state: CaptureView,
    packet: CapturedPacketView,
    filter: TrafficFilterView,
    reassembled: Option<Seq<u8>>,
    now: u128,
)
    requires
        admits(filter, packet),
        packet.payload.len() <= usize::MAX,
    ensures
        ({
            let seen = flow::observation(state, packet);
            let event = report::report(state, packet, filter, reassembled, now).events[0];
            &&& concerns(event, seen, packet)
            &&& event.attributes.contains_key("duplicate_ack"@) == seen.duplicate_ack
            &&& event.attributes.contains_key("retransmitted_segment"@)
                == seen.retransmitted_segment
            &&& event.attributes.contains_key("out_of_order"@) == seen.out_of_order
            &&& event.attributes.contains_key("zero_window_probe"@) == seen.zero_window_probe
            &&& forall|name: Seq<char>| #[trigger]
                event.attributes.contains_key(name) ==> event.attributes[name] && (name
                    == "duplicate_ack"@ || name == "retransmitted_segment"@ || name
                    == "out_of_order"@ || name == "zero_window_probe"@)
            &&& event.kind matches EventKindView::Packet {
                interface,
                protocol,
                length,
                captured_length,
                wire_length,
                payload_length,
                ip_version,
                ttl_or_hop_limit,
                fragmentation,
                tcp_flags,
                sequence_number,
                acknowledgement_number,
                window_size,
                tcp_options,
                udp_length,
                icmp_type,
                icmp_code,
                raw_packet,
            } && {
                &&& interface == packet.interface
                &&& protocol == packet.protocol
                &&& length == packet.payload.len()
                &&& captured_length == packet.captured_length
                &&& wire_length == packet.wire_length
                &&& payload_length == packet.payload.len()
                &&& ip_version == packet.ip_version
                &&& ttl_or_hop_limit == packet.ttl_or_hop_limit
                &&& fragmentation == packet.fragmentation
                &&& udp_length == packet.udp_length
                &&& icmp_type == packet.icmp_type
                &&& icmp_code == packet.icmp_code
                &&& raw_packet == packet.raw_packet
                &&& packet.tcp matches Some(tcp) ==> {
                    &&& tcp_flags == Some(tcp.flags)
                    &&& sequence_number == Some(tcp.sequence_number)
                    &&& acknowledgement_number == Some(tcp.acknowledgement_number)
                    &&& window_size == Some(tcp.window_size)
                    &&& tcp_options == Some(tcp.options)
                }
                &&& packet.tcp is None ==> {
                    &&& tcp_flags is None
                    &&& sequence_number is None
                    &&& acknowledgement_number is None
                    &&& window_size is None
                    &&& tcp_options is None
                }
            }
        }),
{
    lemma_admits(filter, packet);
    report::packet_event_comes_first(state, packet, filter, reassembled, now);
    reveal_strlit("duplicate_ack");
    reveal_strlit("retransmitted_segment");
    reveal_strlit("out_of_order");
    reveal_strlit("zero_window_probe");
    assert("duplicate_ack"@.len() == 13 && "retransmitted_segment"@.len() == 21
        && "out_of_order"@.len() == 12 && "zero_window_probe"@.len() == 17);
}

/// The number of events that a condition adds.
pub open spec fn one_if(condition: bool) -> int {
    if condition {
        1
    } else {
        0
    }
}

/// The DNS message that a packet carries: one from or to port 53 over UDP that can be read.
pub open spec fn carries_message(packet: CapturedPacketView, summary: DnsSummaryView) -> bool {
    &&& packet.protocol == "udp"@
    &&& packet.source.port == 53 || packet.destination.port == 53
    &&& dns::dns_summary(packet.payload) matches Ok(read) && read == summary
}

/// The packet carries no DNS message.
pub open spec fn carries_no_message(packet: CapturedPacketView) -> bool {
    ||| packet.protocol != "udp"@
    ||| packet.source.port != 53 && packet.destination.port != 53
    ||| dns::dns_summary(packet.payload) is Err
}

/// The events at the beginning of a report: after that about the packet one about the opened
/// connection and one about the closed connection, where the packet opens or closes one.
pub open spec fn begins_as(
    list: Seq<EventDraftView>,
    seen: ObservationView,
    packet: CapturedPacketView,
) -> bool {
    let opened = one_if(seen.opened);
    let closed = one_if(seen.closed is Some);
    &&& list.len() >= 1 + opened + closed
    &&& list[0].kind is Packet
    &&& seen.opened ==> concerns(list[1], seen, packet) && list[1].kind
        == (EventKindView::ConnectionOpened { transport: packet.protocol }) && list[1].attributes
        == Map::<Seq<char>, bool>::empty()
    &&& seen.closed is Some ==> concerns(list[1 + opened], seen, packet) && list[1 + opened].kind
        == (EventKindView::ConnectionClosed { reason: seen.closed }) && list[1 + opened].attributes
        == Map::<Seq<char>, bool>::empty()
}

/// The events of a report behind those about the packet and its connection.
pub open spec fn extra(list: Seq<EventDraftView>, seen: ObservationView) -> Seq<EventDraftView> {
    list.skip(1 + one_if(seen.opened) + one_if(seen.closed is Some))
}

/// The flow of a packet has, before the packet, reported its ClientHello.
pub open spec fn hello_was_reported(state: CaptureView, packet: CapturedPacketView) -> bool {
    let id = flow::packet_flow_id(packet);
    state.flows.contains_key(id) && state.flows[id].hello_emitted
}

/// The flow of a packet has, before the packet, reported its certificate.
pub open spec fn certificate_was_reported(
    state: CaptureView,
    packet: CapturedPacketView,
) -> bool {
    let id = flow::packet_flow_id(packet);
    state.flows.contains_key(id) && state.flows[id].certificate_emitted
}

/// An event about a ClientHello holds what it offers.
pub open spec fn describes_hello(event: EventDraftView, hello: ClientHelloView) -> bool {
    &&& event.attributes == Map::<Seq<char>, bool>::empty()
    &&& event.kind matches EventKindView::TlsClientHello { sni, alpn, tls_version, cipher_suites }
        && sni == hello.sni && alpn == hello.alpn && tls_version == hello.tls_version
        && cipher_suites == hello.cipher_suites
}

/// An event about a certificate holds its four fields.
pub open spec fn describes_certificate(
    event: EventDraftView,
    found: CertificateSummaryView,
) -> bool {
    &&& event.attributes == Map::<Seq<char>, bool>::empty()
    &&& event.kind matches EventKindView::TlsCertificate { subject, issuer, serial, not_after }
        && subject == Some(found.subject) && issuer == Some(found.issuer) && serial == Some(
        found.serial,
    ) && not_after == Some(found.not_after)
}

/// An event about a DNS message holds what the message says, with its answers in one line each.
pub open spec fn describes_message(
    event: EventDraftView,
    summary: DnsSummaryView,
    latency: Option<u128>,
) -> bool {
    &&& event.attributes == Map::<Seq<char>, bool>::empty()
    &&& event.kind matches EventKindView::Dns {
        query,
        record_type,
        response_code,
        transaction_id,
        is_response,
        answers,
        cname_chain,
        latency_ms,
    } && {
        &&& query == summary.query
        &&& record_type == summary.record_type
        &&& response_code == Some(summary.response_code)
        &&& transaction_id == summary.transaction_id
        &&& is_response == summary.is_response
        &&& answers.len() == summary.answers.len()
        &&& forall|i: int|
            0 <= i < answers.len() ==> #[trigger] answers[i] == summary.answers[i].name + " "@
                + text::decimal(summary.answers[i].record_type as nat) + " "@
                + summary.answers[i].value + " ttl="@ + text::decimal(
                summary.answers[i].ttl as nat,
            )
        &&& cname_chain == summary.cname_chain
        &&& latency_ms == latency
    }
}

proof fn lemma_marks(state: CaptureView, packet: CapturedPacketView)
    ensures
        ({
            let id = flow::packet_flow_id(packet);
            let after = flow::observed_state(state, packet);
            &&& flow::flow_before(after, id).hello_emitted == hello_was_reported(state, packet)
            &&& flow::flow_before(after, id).certificate_emitted == certificate_was_reported(
                state,
                packet,
            )
        }),
{
}

/// A packet that carries no DNS message gives, behind the events about itself and its connection,
/// one about the ClientHello that its stream starts with and one about the certificate in its
/// stream. A ClientHello whose host name the filter does not admit, or that was reported for the
/// flow before, is not reported, and neither is a certificate with it; a certificate that was
/// reported for the flow before is not reported either.
pub proof fn handshakes_are_reported(
    state: CaptureView,
    packet: CapturedPacketView,
    filter: TrafficFilterView,
    now: u128,
    hello: Option<ClientHelloView>,
    found: Option<CertificateSummaryView>,
)
    requires
        admits(filter, packet),
        carries_no_message(packet),
    ensures
        ({
            let seen = flow::observation(state, packet);
            let list = report::report_with(state, packet, filter, now, hello, found).events;
            let more = extra(list, seen);
            let refused = hello matches Some(offer) && (hello_was_reported(state, packet) || (
            offer.sni matches Some(name) && !admits_name(filter, name)));
            let greets = hello is Some && !refused;
            let certifies = found is Some && !refused && !certificate_was_reported(state, packet);
            &&& begins_as(list, seen, packet)
            &&& more.len() == one_if(greets) + one_if(certifies)
            &&& greets ==> concerns(more[0], seen, packet) && describes_hello(more[0], hello->0)
            &&& certifies ==> concerns(more[one_if(greets)], seen, packet) && describes_certificate(
                more[one_if(greets)],
                found->0,
            )
        }),
{
    lemma_admits(filter, packet);
    lemma_marks(state, packet);
    let seen = flow::observation(state, packet);
    let first = report::packet_report(state, packet);
    assert(report::carried_dns(packet) is None);
    match hello {
        Some(offer) => {
            assert(report::hidden(filter, offer.sni) == (offer.sni matches Some(name)
                && !admits_name(filter, name)));
        },
        None => {},
    }
    let greeted = if hello is Some {
        report::with_hello(first, seen, packet, hello->0)
    } else {
        first
    };
    assert(flow::flow_before(greeted.state, seen.connection_id).certificate_emitted
        == certificate_was_reported(state, packet));
}

/// A packet that carries a DNS message gives, behind the events about itself and its connection,
/// one about the message, unless the filter does not admit the name in its question.
pub proof fn messages_are_reported(
    state: CaptureView,
    packet: CapturedPacketView,
    filter: TrafficFilterView,
    now: u128,
    summary: DnsSummaryView,
)
    requires
        admits(filter, packet),
        carries_message(packet, summary),
    ensures
        ({
            let seen = flow::observation(state, packet);
            let list = report::report_with(state, packet, filter, now, None, None).events;
            let more = extra(list, seen);
            let refused = summary.query matches Some(name) && !admits_name(filter, name);
            &&& begins_as(list, seen, packet)
            &&& more.len() == one_if(!refused)
            &&& !refused ==> concerns(more[0], seen, packet) && describes_message(
                more[0],
                summary,
                report::latency(state.queries, packet, summary, now),
            )
        }),
{
    lemma_admits(filter, packet);
    assert(report::carried_dns(packet) == Some(summary));
    assert(report::hidden(filter, summary.query) == (summary.query matches Some(name)
        && !admits_name(filter, name)));
}

/// A report changes of the state what the packet shows, what its DNS message changes of the queries
/// and which of its flow was reported, and nothing else: no stream, no other flow, and neither the
/// client nor the directions of its own.
pub proof fn reports_change_their_flow_alone(
    state: CaptureView,
    packet: CapturedPacketView,
    filter: TrafficFilterView,
    now: u128,
    hello: Option<ClientHelloView>,
    found: Option<CertificateSummaryView>,
    other: Seq<char>,
)
    ensures
        ({
            let id = flow::packet_flow_id(packet);
            let seen = flow::observed_state(state, packet);
            let after = report::report_with(state, packet, filter, now, hello, found).state;
            &&& after.streams == state.streams
            &&& other != id ==> after.flows.contains_key(other) == state.flows.contains_key(other)
                && (state.flows.contains_key(other) ==> after.flows[other] == state.flows[other])
            &&& admits(filter, packet) ==> after.flows.contains_key(id) && after.flows[id].client
                == seen.flows[id].client && after.flows[id].directions
                == seen.flows[id].directions
        }),
{
    lemma_admits(filter, packet);
}

/// A ClientHello and a certificate are marked as reported for their flow, and all else stays: a
/// mark changes neither the other mark, the client nor the directions, and no other flow.
pub proof fn marks_change_nothing_else(state: CaptureView, id: Seq<char>, other: Seq<char>)
    ensures
        ({
            let greeted = report::hello_marked(state, id);
            let certified = report::certificate_marked(state, id);
            let before = flow::flow_before(state, id);
            &&& greeted.flows.contains_key(id) && certified.flows.contains_key(id)
            &&& greeted.flows[id].hello_emitted
            &&& greeted.flows[id].certificate_emitted == before.certificate_emitted
            &&& certified.flows[id].certificate_emitted
            &&& certified.flows[id].hello_emitted == before.hello_emitted
            &&& greeted.flows[id].client == before.client && certified.flows[id].client
                == before.client
            &&& greeted.flows[id].directions == before.directions && certified.flows[id].directions
                == before.directions
            &&& other != id ==> greeted.flows.contains_key(other) == state.flows.contains_key(other)
                && certified.flows.contains_key(other) == state.flows.contains_key(other)
            &&& other != id && state.flows.contains_key(other) ==> greeted.flows[other]
                == state.flows[other] && certified.flows[other] == state.flows[other]
            &&& greeted.streams == state.streams && certified.streams == state.streams
            &&& greeted.queries == state.queries && certified.queries == state.queries
            &&& state.flows.contains_key(id) ==> before == state.flows[id]
            &&& !state.flows.contains_key(id) ==> before.client is None && !before.hello_emitted
                && !before.certificate_emitted && before.directions.dom() == Set::<
                Seq<char>,
            >::empty()
        }),
{
}

/// What a stream starts with is looked for in TCP streams only: the ClientHello that can be read
/// at the beginning, and the first certificate in it that can be read and that nothing follows.
pub proof fn streams_are_searched(
    state: CaptureView,
    packet: CapturedPacketView,
    filter: TrafficFilterView,
    reassembled: Option<Seq<u8>>,
    now: u128,
)
    ensures
        exists|hello: Option<ClientHelloView>, found: Option<CertificateSummaryView>| {
            &&& report::report(state, packet, filter, reassembled, now)
                == #[trigger] report::report_with(state, packet, filter, now, hello, found)
            &&& reassembled is None || packet.protocol != "tcp"@ ==> hello is None && found is None
            &&& reassembled is Some && packet.protocol == "tcp"@ ==> {
                &&& match tls::client_hello(reassembled->0) {
                    Ok(offer) => hello == Some(offer),
                    Err(_) => hello is None,
                }
                &&& match tls::certificate_at(reassembled->0, 0) {
                    Ok(der) => match outside::x509_certificate(der) {
                        Ok(parts) => if parts.remaining.len() == 0 {
                            found matches Some(c) && c.subject == parts.subject && c.issuer
                                == parts.issuer && c.serial == parts.serial && c.not_after
                                == parts.not_after
                        } else {
                            found is None
                        },
                        Err(_) => found is None,
                    },
                    Err(_) => found is None,
                }
            }
        },
{
    let hello = report::carried_hello(packet, reassembled);
    let found = report::carried_certificate(packet, reassembled);
    assert(report::report(state, packet, filter, reassembled, now) == report::report_with(
        state,
        packet,
        filter,
        now,
        hello,
        found,
    ));
}

/// A certificate is summarised by its four fields; one that cannot be read and one that something
/// follows are refused, with the reason.
pub proof fn certificates_are_summarised(
    parts: outside::CertificatePartsView,
    reason: Seq<char>,
)
    ensures
        certificate::summary_of(Err(reason)) == Err::<CertificateSummaryView, Seq<char>>(
            "invalid X.509 certificate: "@ + reason,
        ),
        parts.remaining.len() > 0 ==> certificate::summary_of(Ok(parts)) == Err::<
            CertificateSummaryView,
            Seq<char>,
        >("trailing data after X.509 certificate"@),
        parts.remaining.len() == 0 ==> (certificate::summary_of(Ok(parts)) matches Ok(c)
            && c.subject == parts.subject && c.issuer == parts.issuer && c.serial == parts.serial
            && c.not_after == parts.not_after),
{
}

// ---------------------------------------------------------------------------------------------
// Queries and streams
// ---------------------------------------------------------------------------------------------

/// The query that goes from a client to a server with a number.
pub open spec fn query_between(
    number: u16,
    client: EndpointView,
    server: EndpointView,
) -> QueryView {
    QueryView {
        transaction_id: number,
        client: flow::key_of(client),
        server: flow::key_of(server),
    }
}

/// A query waits, from its time on, for the response that goes the other way with its number; with
/// 4096 others waiting, these are forgotten.
pub proof fn queries_wait_for_their_response(
    waiting: QueriesView,
    packet: CapturedPacketView,
    summary: DnsSummaryView,
    now: u128,
)
    requires
        !summary.is_response,
    ensures
        ({
            let after = report::queries_after(waiting, packet, summary, now);
            let key = query_between(summary.transaction_id, packet.source, packet.destination);
            &&& report::latency(waiting, packet, summary, now) is None
            &&& after.contains_key(key) && after[key] == now
            &&& waiting.len() < 4096 ==> forall|other: QueryView|
                other != key ==> #[trigger] after.contains_key(other) == waiting.contains_key(other)
                    && (waiting.contains_key(other) ==> after[other] == waiting[other])
            &&& waiting.len() >= 4096 ==> forall|other: QueryView|
                other != key ==> !#[trigger] after.contains_key(other)
        }),
{
}

/// A response is timed by the query that went the other way with its number, if that waits: in
/// whole milliseconds from the time of the query, and none where the clock went back. The query
/// waits no longer, and all others do.
pub proof fn only_matching_responses_are_timed(
    waiting: QueriesView,
    packet: CapturedPacketView,
    summary: DnsSummaryView,
    now: u128,
)
    requires
        summary.is_response,
    ensures
        ({
            let after = report::queries_after(waiting, packet, summary, now);
            let key = query_between(summary.transaction_id, packet.destination, packet.source);
            let latency = report::latency(waiting, packet, summary, now);
            &&& latency is Some == waiting.contains_key(key)
            &&& latency matches Some(milliseconds) ==> {
                &&& now <= waiting[key] ==> milliseconds == 0
                &&& now > waiting[key] ==> 1_000_000 * milliseconds <= now - waiting[key]
                    < 1_000_000 * milliseconds + 1_000_000
            }
            &&& !after.contains_key(key)
            &&& forall|other: QueryView|
                other != key ==> #[trigger] after.contains_key(other) == waiting.contains_key(other)
                    && (waiting.contains_key(other) ==> after[other] == waiting[other])
        }),
{
    let key = query_between(summary.transaction_id, packet.destination, packet.source);
    if waiting.contains_key(key) && now > waiting[key] {
        let d = now - waiting[key];
        assert(1_000_000 * (d / 1_000_000) <= d < 1_000_000 * (d / 1_000_000) + 1_000_000);
    }
}

/// A DNS message that is reported leaves the queries as it says, and anything else leaves them.
pub proof fn queries_are_kept(
    state: CaptureView,
    packet: CapturedPacketView,
    filter: TrafficFilterView,
    now: u128,
    summary: DnsSummaryView,
)
    requires
        admits(filter, packet),
    ensures
        carries_message(packet, summary) && !(summary.query matches Some(name) && !admits_name(
            filter,
            name,
        )) ==> report::report_with(state, packet, filter, now, None, None).state.queries
            == report::queries_after(state.queries, packet, summary, now),
        carries_no_message(packet) ==> report::report_with(
            state,
            packet,
            filter,
            now,
            None,
            None,
        ).state.queries == state.queries,
{
    lemma_admits(filter, packet);
    if carries_message(packet, summary) {
        assert(report::carried_dns(packet) == Some(summary));
        assert(report::hidden(filter, summary.query) == (summary.query matches Some(name)
            && !admits_name(filter, name)));
    }
}

/// The first bytes of a stream, up to the 131072 that are kept.
pub open spec fn beginning(bytes: Seq<u8>) -> Seq<u8> {
    if bytes.len() <= 131072 {
        bytes
    } else {
        bytes.subrange(0, 131072)
    }
}

/// A segment with a payload joins the stream from its source to its destination where it starts
/// where that ends, or where there is none yet: the stream is its bytes so far and the payload, as
/// far as they are kept, and ends behind the payload and the flags. A segment that starts
/// elsewhere changes nothing.
pub proof fn segments_join_their_stream(streams: StreamsView, packet: CapturedPacketView)
    requires
        packet.protocol == "tcp"@,
        packet.payload.len() > 0,
        packet.tcp is Some,
    ensures
        ({
            let tcp = packet.tcp->0;
            let key = flow::key_of(packet.source) + ">"@ + flow::key_of(packet.destination);
            let known = streams.contains_key(key);
            let held = if known {
                streams[key].bytes
            } else {
                Seq::empty()
            };
            let fits = known ==> streams[key].next == tcp.sequence_number;
            let flags = one_if(tcp.flags.contains("SYN"@) || tcp.flags.contains("FIN"@));
            let after = report::streams_after(streams, packet);
            &&& fits ==> {
                &&& report::completed_stream(streams, packet) == Some(
                    beginning(held + packet.payload),
                )
                &&& after.contains_key(key)
                &&& after[key].bytes == beginning(held + packet.payload)
                &&& after[key].next == (tcp.sequence_number + packet.payload.len() + flags)
                    % 0x1_0000_0000
                &&& forall|other: Seq<char>|
                    other != key ==> #[trigger] after.contains_key(other) == streams.contains_key(
                        other,
                    ) && (streams.contains_key(other) ==> after[other] == streams[other])
            }
            &&& !fits ==> report::completed_stream(streams, packet) is None && after == streams
        }),
{
}

/// A packet without a payload, and one that is no TCP packet, changes no stream.
pub proof fn other_packets_join_no_stream(streams: StreamsView, packet: CapturedPacketView)
    requires
        packet.protocol != "tcp"@ || packet.payload.len() == 0 || packet.tcp is None,
    ensures
        report::streams_after(streams, packet) == streams,
        report::completed_stream(streams, packet) is None,
{
}

/// A packet of a capture is reported with the stream that it joins, and the streams stay as it
/// leaves them.
pub proof fn captures_follow_their_streams(
    state: CaptureView,
    packet: CapturedPacketView,
    filter: TrafficFilterView,
    now: u128,
)
    ensures
        ({
            let after = report::stateful_report(state, packet, filter, now);
            let joined = CaptureView {
                streams: report::streams_after(state.streams, packet),
                ..state
            };
            &&& after == report::report(
                joined,
                packet,
                filter,
                report::completed_stream(state.streams, packet),
                now,
            )
            &&& after.state.streams == report::streams_after(state.streams, packet)
        }),
{
}

/// A stream that a segment starts is the payload of the segment, and one that it continues where
/// it ends is what was there with the payload behind it, as far as they are kept; each ends behind
/// the payload and what the flags take.
pub proof fn pushed_segments_join(
    streams: StreamsView,
    key: Seq<char>,
    sequence: u32,
    payload: Seq<u8>,
    consumed: u32,
)
    ensures
        ({
            let held = if streams.contains_key(key) {
                streams[key].bytes
            } else {
                Seq::empty()
            };
            let fits = streams.contains_key(key) ==> streams[key].next == sequence;
            let after = reassembly::pushed(streams, key, sequence, payload, consumed);
            &&& reassembly::continues(streams, key, sequence) == fits
            &&& fits ==> {
                &&& reassembly::joined(streams, key, sequence, payload) == beginning(
                    held + payload,
                )
                &&& after.contains_key(key)
                &&& after[key].bytes == beginning(held + payload)
                &&& after[key].next == (sequence + payload.len() + consumed) % 0x1_0000_0000
            }
            &&& !fits ==> after == streams
        }),
{
}

/// Nothing is remembered before the first packet.
pub proof fn captures_start_empty()
    ensures
        flow::initial_state().streams.dom() == Set::<Seq<char>>::empty(),
        flow::initial_state().flows.dom() == Set::<Seq<char>>::empty(),
        flow::initial_state().queries.dom() == Set::<QueryView>::empty(),
{
}

// ---------------------------------------------------------------------------------------------
// Capture filters
// ---------------------------------------------------------------------------------------------

/// The protocols of a filter become the words of the capture language, in order: the known names
/// in lower case, version 6 of the control protocol by its one word, and others by none.
pub proof fn protocols_become_words(protocols: Seq<Seq<char>>, protocol: Seq<char>)
    ensures
        bpf::protocol_words(Seq::empty()) == Seq::<Seq<char>>::empty(),
        ({
            let before = bpf::protocol_words(protocols);
            let after = bpf::protocol_words(protocols.push(protocol));
            let name = text::lower(protocol);
            let plain = name == "tcp"@ || name == "udp"@ || name == "icmp"@ || name == "ip"@ || name
                == "ip6"@;
            let control = name == "icmp6"@ || name == "icmpv6"@;
            &&& plain ==> after == before.push(name)
            &&& control ==> after == before.push("icmp6"@)
            &&& !plain && !control ==> after == before
        }),
{
    assert(protocols.push(protocol).drop_last() =~= protocols);
    reveal_strlit("tcp");
    reveal_strlit("udp");
    reveal_strlit("icmp");
    reveal_strlit("ip");
    reveal_strlit("ip6");
    reveal_strlit("icmp6");
    reveal_strlit("icmpv6");
    assert("icmp6"@.len() == 5 && "icmpv6"@.len() == 6 && "tcp"@.len() == 3 && "udp"@.len() == 3
        && "icmp"@.len() == 4 && "ip"@.len() == 2 && "ip6"@.len() == 3);
}

/// The terms of a list joined by `or`, in brackets.
pub open spec fn one_of(terms: Seq<Seq<char>>) -> Seq<char> {
    seq!['('] + text::join(terms, " or "@) + seq![')']
}

/// The clauses of a capture filter: one for each list that is not empty.
pub open spec fn clause_list(a: Seq<Seq<char>>, b: Seq<Seq<char>>, c: Seq<Seq<char>>) -> Seq<
    Seq<char>,
> {
    let first = if a.len() == 0 {
        Seq::empty()
    } else {
        seq![one_of(a)]
    };
    let second = if b.len() == 0 {
        first
    } else {
        first.push(one_of(b))
    };
    if c.len() == 0 {
        second
    } else {
        second.push(one_of(c))
    }
}

/// A filter becomes a capture filter of one clause for its protocols, one for its ports and one
/// for its addresses, each with the alternatives joined by `or`, and the clauses joined by `and`;
/// a filter without any becomes none.
pub proof fn filters_become_expressions(filter: TrafficFilterView)
    ensures
        ({
            let words = bpf::protocol_words(filter.protocols);
            let ports = Seq::new(
                filter.ports.len(),
                |i: int| "port "@ + text::decimal(filter.ports[i] as nat),
            );
            let hosts = Seq::new(
                filter.ips.len(),
                |i: int| "host "@ + filter.ips[i].spec_text(),
            );
            let clauses = clause_list(words, ports, hosts);
            &&& clauses.len() == 0 ==> bpf::expression(filter) is None
            &&& clauses.len() > 0 ==> bpf::expression(filter) == Some(
                text::join(clauses, " and "@),
            )
        }),
{
    reveal_strlit("(");
    reveal_strlit(")");
    assert("("@ =~= seq!['(']);
    assert(")"@ =~= seq![')']);
    let words = bpf::protocol_words(filter.protocols);
    let ports = Seq::new(
        filter.ports.len(),
        |i: int| "port "@ + text::decimal(filter.ports[i] as nat),
    );
    let hosts = Seq::new(filter.ips.len(), |i: int| "host "@ + filter.ips[i].spec_text());
    assert(bpf::port_terms(filter.ports) =~= ports);
    assert(bpf::host_terms(filter.ips) =~= hosts);
    assert(bpf::clauses(filter) =~= clause_list(words, ports, hosts));
}

} // verus!
