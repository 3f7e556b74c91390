//! Promises about flows: who is taken for the client, and which way a packet is reported to go.
use crate::capture::decode::{CapturedPacketView, TcpMetadataView};
use crate::capture::flow;
use crate::capture::flow::{CaptureView, DirectionView};
use crate::events::{Direction, EndpointView};
use crate::text;
use vstd::prelude::*;

verus! {

/// The packet opens a connection: it holds the flag for that and not the one of an answer.
pub open spec fn opens(packet: CapturedPacketView) -> bool {
    packet.tcp matches Some(tcp) && tcp.flags.contains("SYN"@) && !tcp.flags.contains("ACK"@)
}

/// A port below which services are expected.
pub open spec fn is_well_known(port: u16) -> bool {
    1 <= port <= 1024
}

/// Nobody is known to be the client of the flow that a packet belongs to.
pub open spec fn has_no_client(state: CaptureView, packet: CapturedPacketView) -> bool {
    let id = flow::packet_flow_id(packet);
    state.flows.contains_key(id) ==> state.flows[id].client is None
}

/// After a packet an endpoint is known to be the client of its flow.
pub open spec fn makes_client(
    state: CaptureView,
    packet: CapturedPacketView,
    client: EndpointView,
) -> bool {
    let id = flow::packet_flow_id(packet);
    let after = flow::observed_state(state, packet);
    after.flows.contains_key(id) && after.flows[id].client == Some(client)
}

/// In a flow whose client is not known, a packet that opens a connection, one to the port of name
/// servers, and one from a port above the well-known ones to a well-known port go from the client
/// to the server, and make their source the client.
pub proof fn requests_come_from_the_client(state: CaptureView, packet: CapturedPacketView)
    requires
        has_no_client(state, packet),
        opens(packet) || packet.destination.port == 53 || (is_well_known(packet.destination.port)
            && packet.source.port > 1024),
    ensures
        flow::observation(state, packet).direction == Direction::ClientToServer,
        makes_client(state, packet, packet.source),
{
}

/// In a flow whose client is not known, any other packet from a well-known port to a port above
/// the well-known ones goes from the server to the client, and makes its destination the client.
pub proof fn answers_go_to_the_client(state: CaptureView, packet: CapturedPacketView)
    requires
        has_no_client(state, packet),
        !opens(packet),
        is_well_known(packet.source.port),
        packet.destination.port > 1024,
    ensures
        flow::observation(state, packet).direction == Direction::ServerToClient,
        makes_client(state, packet, packet.destination),
{
}

/// In a flow whose client is not known, a packet between two ports that tell nothing, and that
/// opens no connection, goes an unknown way and makes nobody the client.
pub proof fn other_packets_tell_nothing(state: CaptureView, packet: CapturedPacketView)
    requires
        has_no_client(state, packet),
        !opens(packet),
        packet.destination.port != 53,
        is_well_known(packet.source.port) ==> packet.destination.port <= 1024,
        is_well_known(packet.destination.port) ==> packet.source.port <= 1024,
    ensures
        flow::observation(state, packet).direction == Direction::Unknown,
        ({
            let id = flow::packet_flow_id(packet);
            let after = flow::observed_state(state, packet);
            after.flows.contains_key(id) && after.flows[id].client is None
        }),
{
}

/// In a flow whose client is known, a packet goes from the client to the server where it comes
/// from the client, and otherwise from the server to the client; the client stays the same.
pub proof fn known_clients_decide_the_direction(
    state: CaptureView,
    packet: CapturedPacketView,
    client: EndpointView,
)
    requires
        ({
            let id = flow::packet_flow_id(packet);
            state.flows.contains_key(id) && state.flows[id].client == Some(client)
        }),
    ensures
        client == packet.source ==> flow::observation(state, packet).direction
            == Direction::ClientToServer,
        client != packet.source ==> flow::observation(state, packet).direction
            == Direction::ServerToClient,
        makes_client(state, packet, client),
{
}

/// A packet that opens a connection is reported as that, a reset and a final segment are reported
/// to close it, the reset first, and no other packet is.
pub proof fn openings_and_closings_are_reported(state: CaptureView, packet: CapturedPacketView)
    ensures
        ({
            let seen = flow::observation(state, packet);
            let reset = packet.tcp matches Some(tcp) && tcp.flags.contains("RST"@);
            let last = packet.tcp matches Some(tcp) && tcp.flags.contains("FIN"@);
            &&& seen.opened == opens(packet)
            &&& reset ==> seen.closed == Some("reset"@)
            &&& !reset && last ==> seen.closed == Some("fin"@)
            &&& !reset && !last ==> seen.closed is None
        }),
{
}

/// The identity of a connection names the interface, the protocol and its two endpoints, each as
/// its host and its port, with the host in brackets where it holds a colon. The endpoint whose
/// text comes first stands first.
pub proof fn connections_are_named(state: CaptureView, packet: CapturedPacketView)
    ensures
        ({
            let named = |e: EndpointView|
                if e.host.contains(':') {
                    seq!['['] + e.host + seq![']', ':'] + text::decimal(e.port as nat)
                } else {
                    e.host + seq![':'] + text::decimal(e.port as nat)
                };
            let a = named(packet.source);
            let b = named(packet.destination);
            let start = "capture:"@ + packet.interface + ":"@ + packet.protocol + ":"@;
            let id = flow::observation(state, packet).connection_id;
            if text::text_less(b, a) {
                id == start + (b + seq!['-'] + a)
            } else {
                id == start + (a + seq!['-'] + b)
            }
        }),
{
    reveal_strlit("[");
    reveal_strlit("]:");
    reveal_strlit(":");
    reveal_strlit("-");
    assert("["@ =~= seq!['[']);
    assert("]:"@ =~= seq![']', ':']);
    assert(":"@ =~= seq![':']);
    assert("-"@ =~= seq!['-']);
}

/// On the circle of sequence numbers, one lies before those that follow it within half the circle,
/// and before no others.
pub proof fn sequence_numbers_are_ordered_on_a_circle(sequence: u32, distance: int)
    requires
        0 <= distance < 0x1_0000_0000,
    ensures
        ({
            let reference = (sequence + distance) % 0x1_0000_0000;
            flow::lies_before(sequence, reference as u32) == (1 <= distance <= 0x8000_0000)
        }),
{
    let total = sequence + distance;
    let reference = total % 0x1_0000_0000;
    assert(reference == total || reference == total - 0x1_0000_0000);
    if distance == 0 {
        assert((sequence - reference) % 0x1_0000_0000 == 0);
    } else if reference == total {
        assert((sequence - reference) % 0x1_0000_0000 == 0x1_0000_0000 - distance);
    } else {
        assert((sequence - reference) % 0x1_0000_0000 == 0x1_0000_0000 - distance);
    }
}

/// What a flow remembers of the packets from one of its endpoints: nothing before the first.
pub open spec fn remembered_of(
    state: CaptureView,
    packet: CapturedPacketView,
    endpoint: EndpointView,
) -> DirectionView {
    let id = flow::packet_flow_id(packet);
    let key = flow::key_of(endpoint);
    if state.flows.contains_key(id) && state.flows[id].directions.contains_key(key) {
        state.flows[id].directions[key]
    } else {
        DirectionView {
            seen: Set::empty(),
            highest_end: None,
            last_pure_ack: None,
            last_window: None,
        }
    }
}

/// How many sequence numbers a segment takes: one for each byte, and one more where it opens or
/// closes the stream.
pub open spec fn space_of(tcp: TcpMetadataView, payload: Seq<u8>) -> int {
    if tcp.flags_bits % 4 == 0 {
        payload.len() as int
    } else {
        payload.len() + 1int
    }
}

/// A packet only acknowledges: it has that flag alone, and no payload.
pub open spec fn only_acknowledges(tcp: TcpMetadataView, payload: Seq<u8>) -> bool {
    tcp.flags_bits == 16 && payload.len() == 0
}

/// One sequence number comes before another: by at least one and at most half the circle.
pub open spec fn comes_before(sequence: u32, other: u32) -> bool {
    1 <= (other - sequence) % 0x1_0000_0000 <= 0x8000_0000
}

proof fn lemma_comes_before(sequence: u32, other: u32)
    ensures
        flow::lies_before(sequence, other) == comes_before(sequence, other),
{
    let distance = (other - sequence) % 0x1_0000_0000;
    assert(distance == other - sequence || distance == other - sequence + 0x1_0000_0000);
    assert((sequence + distance) % 0x1_0000_0000 == other);
    sequence_numbers_are_ordered_on_a_circle(sequence, distance);
}

/// A packet that only acknowledges is a duplicate where the last such packet from its source said
/// the same. A segment is a retransmission where the same one came from its source before, as far
/// as that is remembered, and otherwise out of order where it starts before the furthest end that
/// came from there. A packet with one byte and none of the three lowest flags is a probe where its
/// byte stands just before what the other side acknowledged last, with a closed window.
pub proof fn segments_are_classified(state: CaptureView, packet: CapturedPacketView)
    requires
        packet.tcp is Some,
    ensures
        ({
            let tcp = packet.tcp->0;
            let seen = flow::observation(state, packet);
            let before = remembered_of(state, packet, packet.source);
            let peer = remembered_of(state, packet, packet.destination);
            let takes = space_of(tcp, packet.payload) > 0;
            let key = flow::segment_key(
                tcp.sequence_number,
                packet.payload.len() as int,
                tcp.flags_bits % 4,
            );
            let known = before.seen.len() < 4096 && before.seen.contains(key as u128);
            &&& seen.duplicate_ack == (only_acknowledges(tcp, packet.payload)
                && before.last_pure_ack == Some((tcp.acknowledgement_number, tcp.window_size)))
            &&& seen.retransmitted_segment == (takes && known)
            &&& seen.out_of_order == (takes && !known && (before.highest_end matches Some(end)
                && comes_before(tcp.sequence_number, end)))
            &&& seen.zero_window_probe == (packet.payload.len() == 1 && tcp.flags_bits % 8 == 0 && (
            peer.last_window matches Some((acknowledged, window)) && window == 0 && (
            tcp.sequence_number + 1) % 0x1_0000_0000 == acknowledged))
        }),
{
    let tcp = packet.tcp->0;
    let before = remembered_of(state, packet, packet.source);
    let peer = remembered_of(state, packet, packet.destination);
    match before.highest_end {
        Some(end) => {
            lemma_comes_before(tcp.sequence_number, end);
        },
        None => {},
    }
    match peer.last_window {
        Some((acknowledged, window)) => {
            let sequence = tcp.sequence_number;
            assert((sequence == (acknowledged - 1) % 0x1_0000_0000) == ((sequence + 1)
                % 0x1_0000_0000 == acknowledged));
        },
        None => {},
    }
}

/// After a packet its flow remembers, of the packets from its source: the last one that only
/// acknowledged, the last acknowledgement and window, the furthest end of a segment on the circle,
/// and the segments, up to 4096 before they are forgotten. What it remembers of the other side
/// stays.
pub proof fn directions_are_remembered(state: CaptureView, packet: CapturedPacketView)
    requires
        packet.tcp is Some,
    ensures
        ({
            let tcp = packet.tcp->0;
            let later = flow::observed_state(state, packet);
            let before = remembered_of(state, packet, packet.source);
            let after = remembered_of(later, packet, packet.source);
            let space = space_of(tcp, packet.payload);
            let stated = Some((tcp.acknowledgement_number, tcp.window_size));
            let end = (tcp.sequence_number + space) % 0x1_0000_0000;
            let key = flow::segment_key(
                tcp.sequence_number,
                packet.payload.len() as int,
                tcp.flags_bits % 4,
            );
            let further = before.highest_end matches Some(highest) ==> comes_before(
                highest,
                end as u32,
            );
            &&& after.last_pure_ack == (if only_acknowledges(tcp, packet.payload) {
                stated
            } else {
                before.last_pure_ack
            })
            &&& after.last_window == (if tcp.flags_bits / 16 % 2 == 1 {
                stated
            } else {
                before.last_window
            })
            &&& after.highest_end == (if space > 0 && further {
                Some(end as u32)
            } else {
                before.highest_end
            })
            &&& space == 0 ==> after.seen == before.seen
            &&& space > 0 && before.seen.len() < 4096 ==> after.seen == before.seen.insert(
                key as u128,
            )
            &&& space > 0 && before.seen.len() >= 4096 ==> after.seen == set![key as u128]
            &&& flow::key_of(packet.destination) != flow::key_of(packet.source) ==> remembered_of(
                later,
                packet,
                packet.destination,
            ) == remembered_of(state, packet, packet.destination)
        }),
{
    let tcp = packet.tcp->0;
    let before = remembered_of(state, packet, packet.source);
    let end = (tcp.sequence_number + space_of(tcp, packet.payload)) % 0x1_0000_0000;
    match before.highest_end {
        Some(highest) => {
            lemma_comes_before(highest, end as u32);
        },
        None => {},
    }
    let key = flow::segment_key(
        tcp.sequence_number,
        packet.payload.len() as int,
        tcp.flags_bits % 4,
    );
    assert(Set::<u128>::empty().insert(key as u128) =~= set![key as u128]);
}

/// A packet without a TCP header changes nothing that is remembered of segments, and shows nothing
/// unusual.
pub proof fn other_packets_are_not_classified(state: CaptureView, packet: CapturedPacketView)
    requires
        packet.tcp is None,
    ensures
        ({
            let seen = flow::observation(state, packet);
            let later = flow::observed_state(state, packet);
            &&& !seen.opened && seen.closed is None
            &&& !seen.duplicate_ack && !seen.retransmitted_segment
            &&& !seen.out_of_order && !seen.zero_window_probe
            &&& remembered_of(later, packet, packet.source) == remembered_of(
                state,
                packet,
                packet.source,
            )
            &&& remembered_of(later, packet, packet.destination) == remembered_of(
                state,
                packet,
                packet.destination,
            )
        }),
{
}

/// A packet leaves the streams, the queries and all other flows as they are, and of its own flow
/// what was reported before.
pub proof fn observations_change_their_flow_alone(
    state: CaptureView,
    packet: CapturedPacketView,
    other: Seq<char>,
)
    ensures
        ({
            let id = flow::packet_flow_id(packet);
            let later = flow::observed_state(state, packet);
            &&& later.streams == state.streams
            &&& later.queries == state.queries
            &&& other != id ==> later.flows.contains_key(other) == state.flows.contains_key(other)
                && (state.flows.contains_key(other) ==> later.flows[other] == state.flows[other])
            &&& later.flows.contains_key(id)
            &&& later.flows[id].hello_emitted == (state.flows.contains_key(id)
                && state.flows[id].hello_emitted)
            &&& later.flows[id].certificate_emitted == (state.flows.contains_key(id)
                && state.flows[id].certificate_emitted)
        }),
{
}

} // verus!
