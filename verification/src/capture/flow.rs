//! Flows: which packets belong together, which way they go, and what is unusual about them.
use crate::capture::decode;
use crate::capture::decode::{CapturedPacket, TcpMetadata};
use crate::capture::queries;
use crate::capture::queries::DnsQueries;
use crate::capture::reassembly;
use crate::capture::reassembly::TcpReassembler;
use crate::events;
use crate::events::{Direction, Endpoint};
use crate::text;
use crate::textmap::TextMap;
use std::collections::HashSet;
use vstd::prelude::*;
use vstd::string::StringExecFns;

verus! {

broadcast use vstd::std_specs::hash::group_hash_axioms;

/// How many segments are remembered for each direction of a flow.
pub const MAX_SEEN_SEGMENTS: usize = 4096;

/// Everything that is remembered between packets.
#[derive(Debug)]
pub struct CaptureState {
    pub reassembler: TcpReassembler,
    pub flows: TextMap<FlowState>,
    pub dns_queries: DnsQueries,
}

/// What is remembered of a flow.
#[derive(Debug)]
pub struct FlowState {
    pub client: Option<Endpoint>,
    pub tcp_directions: TextMap<TcpDirectionState>,
    pub tls_client_hello_emitted: bool,
    pub tls_certificate_emitted: bool,
}

/// What is remembered of one direction of a TCP flow.
#[derive(Debug)]
pub struct TcpDirectionState {
    pub seen_segments: HashSet<u128>,
    pub highest_sequence_end: Option<u32>,
    pub last_pure_ack: Option<(u32, u16)>,
    pub last_advertised_window: Option<(u32, u16)>,
}

/// What a packet shows about its flow.
#[derive(Debug)]
pub struct FlowObservation {
    pub connection_id: String,
    pub direction: Direction,
    pub opened: bool,
    pub closed: Option<String>,
    pub duplicate_ack: bool,
    pub retransmitted_segment: bool,
    pub out_of_order: bool,
    pub zero_window_probe: bool,
}

// ---------------------------------------------------------------------------------------------
// Models
// ---------------------------------------------------------------------------------------------

/// The model of a [`TcpDirectionState`].
#[verifier::ext_equal]
pub struct DirectionView {
    pub seen: Set<u128>,
    pub highest_end: Option<u32>,
    pub last_pure_ack: Option<(u32, u16)>,
    pub last_window: Option<(u32, u16)>,
}

/// The model of a [`FlowState`].
#[verifier::ext_equal]
pub struct FlowView {
    pub client: Option<events::EndpointView>,
    pub directions: Map<Seq<char>, DirectionView>,
    pub hello_emitted: bool,
    pub certificate_emitted: bool,
}

/// The model of a [`CaptureState`].
#[verifier::ext_equal]
pub struct CaptureView {
    pub streams: reassembly::StreamsView,
    pub flows: Map<Seq<char>, FlowView>,
    pub queries: queries::QueriesView,
}

/// The model of a [`FlowObservation`].
#[verifier::ext_equal]
pub struct ObservationView {
    pub connection_id: Seq<char>,
    pub direction: Direction,
    pub opened: bool,
    pub closed: Option<Seq<char>>,
    pub duplicate_ack: bool,
    pub retransmitted_segment: bool,
    pub out_of_order: bool,
    pub zero_window_probe: bool,
}

impl View for TcpDirectionState {
    type V = DirectionView;

    open spec fn view(&self) -> DirectionView {
        DirectionView {
            seen: self.seen_segments@,
            highest_end: self.highest_sequence_end,
            last_pure_ack: self.last_pure_ack,
            last_window: self.last_advertised_window,
        }
    }
}

/// The model of an endpoint that may be unknown.
pub open spec fn endpoint_view(endpoint: Option<Endpoint>) -> Option<events::EndpointView> {
    match endpoint {
        Some(e) => Some(e@),
        None => None,
    }
}

impl View for FlowState {
    type V = FlowView;

    open spec fn view(&self) -> FlowView {
        FlowView {
            client: endpoint_view(self.client),
            directions: self.tcp_directions@,
            hello_emitted: self.tls_client_hello_emitted,
            certificate_emitted: self.tls_certificate_emitted,
        }
    }
}

impl View for CaptureState {
    type V = CaptureView;

    open spec fn view(&self) -> CaptureView {
        CaptureView {
            streams: self.reassembler@,
            flows: self.flows@,
            queries: self.dns_queries@,
        }
    }
}

impl View for FlowObservation {
    type V = ObservationView;

    open spec fn view(&self) -> ObservationView {
        ObservationView {
            connection_id: self.connection_id@,
            direction: self.direction,
            opened: self.opened,
            closed: text::opt_text(self.closed),
            duplicate_ack: self.duplicate_ack,
            retransmitted_segment: self.retransmitted_segment,
            out_of_order: self.out_of_order,
            zero_window_probe: self.zero_window_probe,
        }
    }
}

/// The state before the first packet.
pub open spec fn initial_state() -> CaptureView {
    CaptureView { streams: Map::empty(), flows: Map::empty(), queries: Map::empty() }
}

/// A flow of which nothing is known.
pub open spec fn new_flow() -> FlowView {
    FlowView {
        client: None,
        directions: Map::empty(),
        hello_emitted: false,
        certificate_emitted: false,
    }
}

/// A direction in which nothing was seen.
pub open spec fn new_direction() -> DirectionView {
    DirectionView { seen: Set::empty(), highest_end: None, last_pure_ack: None, last_window: None }
}

// ---------------------------------------------------------------------------------------------
// Identity
// ---------------------------------------------------------------------------------------------

/// The text of an endpoint, with brackets around a host that holds colons.
pub open spec fn key_of(endpoint: events::EndpointView) -> Seq<char> {
    if endpoint.host.contains(':') {
        "["@ + endpoint.host + "]:"@ + text::decimal(endpoint.port as nat)
    } else {
        endpoint.host + ":"@ + text::decimal(endpoint.port as nat)
    }
}

/// The identity of the connection between two endpoints; it does not depend on their order.
pub open spec fn flow_id(
    interface: Seq<char>,
    protocol: Seq<char>,
    source: events::EndpointView,
    destination: events::EndpointView,
) -> Seq<char> {
    let a = key_of(source);
    let b = key_of(destination);
    "capture:"@ + interface + ":"@ + protocol + ":"@ + (if text::text_less(b, a) {
        b + "-"@ + a
    } else {
        a + "-"@ + b
    })
}

/// The identity of the connection that a packet belongs to.
pub open spec fn packet_flow_id(packet: decode::CapturedPacketView) -> Seq<char> {
    flow_id(packet.interface, packet.protocol, packet.source, packet.destination)
}

/// Writes an endpoint.
pub fn endpoint_key(endpoint: &Endpoint) -> (r: String)
    ensures
        r@ == key_of(endpoint@),
{
    let chars = text::chars_of(endpoint.host.as_str());
    let bracketed = match text::find_char(&chars, ':') {
        Some(i) => {
            proof {
                text::lemma_first_index(endpoint.host@, ':');
                assert(endpoint.host@[i as int] == ':');
            }
            true
        },
        None => {
            proof {
                text::lemma_first_index(endpoint.host@, ':');
            }
            false
        },
    };
    let mut r = String::new();
    if bracketed {
        r.append("[");
        r.append(endpoint.host.as_str());
        r.append("]:");
        assert(r@ =~= "["@ + endpoint.host@ + "]:"@);
    } else {
        r.append(endpoint.host.as_str());
        r.append(":");
        assert(r@ =~= endpoint.host@ + ":"@);
    }
    text::push_decimal(&mut r, endpoint.port as u128);
    r
}

/// A canonical ID has sorted endpoint keys, so the two packet directions always share it.
pub fn canonical_connection_id(
    interface: &str,
    protocol: &str,
    source: &Endpoint,
    destination: &Endpoint,
) -> (r: String)
    ensures
        r@ == flow_id(interface@, protocol@, source@, destination@),
{
    let a = endpoint_key(source);
    let b = endpoint_key(destination);
    let mut r = "capture:".to_owned();
    r.append(interface);
    r.append(":");
    r.append(protocol);
    r.append(":");
    let ghost front = r@;
    if text::text_before(b.as_str(), a.as_str()) {
        r.append(b.as_str());
        r.append("-");
        r.append(a.as_str());
        assert(r@ =~= front + (b@ + "-"@ + a@));
    } else {
        r.append(a.as_str());
        r.append("-");
        r.append(b.as_str());
        assert(r@ =~= front + (a@ + "-"@ + b@));
    }
    r
}

// ---------------------------------------------------------------------------------------------
// Direction
// ---------------------------------------------------------------------------------------------

/// A TCP packet has the named flag.
pub open spec fn has_flag(tcp: Option<decode::TcpMetadataView>, name: Seq<char>) -> bool {
    tcp matches Some(metadata) && metadata.flags.contains(name)
}

/// An endpoint looks like a server to its peer: its port is a well-known one and the peer's is
/// not.
pub open spec fn looks_like_server(
    endpoint: events::EndpointView,
    peer: events::EndpointView,
) -> bool {
    endpoint.port != 0 && endpoint.port <= 1024 && peer.port > 1024
}

/// Who opened a flow, as far as one packet tells.
pub open spec fn guessed_client(packet: decode::CapturedPacketView) -> Option<
    events::EndpointView,
> {
    if (has_flag(packet.tcp, "SYN"@) && !has_flag(packet.tcp, "ACK"@)) || packet.destination.port
        == 53 || looks_like_server(packet.destination, packet.source) {
        Some(packet.source)
    } else if looks_like_server(packet.source, packet.destination) {
        Some(packet.destination)
    } else {
        None
    }
}

/// Who opened a flow: what is known already counts first.
pub open spec fn client_after(
    known: Option<events::EndpointView>,
    packet: decode::CapturedPacketView,
) -> Option<events::EndpointView> {
    match known {
        Some(client) => Some(client),
        None => guessed_client(packet),
    }
}

/// Which way a packet from the given source goes.
pub open spec fn direction_from(
    client: Option<events::EndpointView>,
    source: events::EndpointView,
) -> Direction {
    match client {
        Some(c) => if c == source {
            Direction::ClientToServer
        } else {
            Direction::ServerToClient
        },
        None => Direction::Unknown,
    }
}

// ---------------------------------------------------------------------------------------------
// Sequence numbers
// ---------------------------------------------------------------------------------------------

/// One sequence number lies before another, on the circle of 32-bit numbers.
pub open spec fn lies_before(sequence: u32, reference: u32) -> bool {
    (sequence - reference) % 0x1_0000_0000 > 0x7fff_ffff
}

/// How many sequence numbers a segment takes: one for each payload byte, and one where it opens
/// or closes the stream.
pub open spec fn sequence_space(metadata: decode::TcpMetadataView, payload: Seq<u8>) -> int {
    payload.len() + (if metadata.flags_bits % 4 != 0 {
        1int
    } else {
        0
    })
}

/// A number for a segment that no other sequence number, length and pair of flags shares.
pub open spec fn segment_key(sequence: u32, length: int, flags: u8) -> int {
    (sequence * 0x1_0000_0000_0000_0000 + length) * 4 + flags
}

/// The number for the segment that a packet holds.
pub open spec fn packet_segment(metadata: decode::TcpMetadataView, payload: Seq<u8>) -> u128 {
    segment_key(metadata.sequence_number, payload.len() as int, metadata.flags_bits % 4) as u128
}

/// The remembered segments, emptied when there are too many.
pub open spec fn remembered(seen: Set<u128>) -> Set<u128> {
    if seen.len() >= MAX_SEEN_SEGMENTS {
        Set::empty()
    } else {
        seen
    }
}

/// The segment was seen before.
pub open spec fn is_retransmission(
    before: DirectionView,
    metadata: decode::TcpMetadataView,
    payload: Seq<u8>,
) -> bool {
    sequence_space(metadata, payload) > 0 && remembered(before.seen).contains(
        packet_segment(metadata, payload),
    )
}

/// The segment is new and starts before the highest end seen so far.
pub open spec fn is_out_of_order(
    before: DirectionView,
    metadata: decode::TcpMetadataView,
    payload: Seq<u8>,
) -> bool {
    &&& sequence_space(metadata, payload) > 0
    &&& !is_retransmission(before, metadata, payload)
    &&& before.highest_end matches Some(highest) && lies_before(metadata.sequence_number, highest)
}

/// The packet acknowledges and does nothing else.
pub open spec fn is_pure_ack(metadata: decode::TcpMetadataView, payload: Seq<u8>) -> bool {
    metadata.flags_bits == 0x10 && payload.len() == 0
}

/// The packet repeats the last pure acknowledgement of its direction.
pub open spec fn is_duplicate_ack(
    before: DirectionView,
    metadata: decode::TcpMetadataView,
    payload: Seq<u8>,
) -> bool {
    is_pure_ack(metadata, payload) && before.last_pure_ack == Some(
        (metadata.acknowledgement_number, metadata.window_size),
    )
}

/// The packet holds one byte just before what the peer acknowledged with a closed window.
pub open spec fn is_zero_window_probe(
    peer_window: Option<(u32, u16)>,
    metadata: decode::TcpMetadataView,
    payload: Seq<u8>,
) -> bool {
    &&& payload.len() == 1
    &&& metadata.flags_bits % 8 == 0
    &&& peer_window matches Some((acknowledged, window)) && window == 0
        && metadata.sequence_number == (acknowledged - 1) % 0x1_0000_0000
}

/// What is remembered of a direction after a packet in it.
pub open spec fn direction_after(
    before: DirectionView,
    metadata: decode::TcpMetadataView,
    payload: Seq<u8>,
) -> DirectionView {
    let space = sequence_space(metadata, payload);
    let end = reassembly::advanced(metadata.sequence_number, space);
    let stated = Some((metadata.acknowledgement_number, metadata.window_size));
    DirectionView {
        seen: if space > 0 {
            remembered(before.seen).insert(packet_segment(metadata, payload))
        } else {
            before.seen
        },
        highest_end: if space > 0 && (before.highest_end matches Some(highest) ==> lies_before(
            highest,
            end,
        )) {
            Some(end)
        } else {
            before.highest_end
        },
        last_pure_ack: if is_pure_ack(metadata, payload) {
            stated
        } else {
            before.last_pure_ack
        },
        last_window: if metadata.flags_bits / 16 % 2 == 1 {
            stated
        } else {
            before.last_window
        },
    }
}

// ---------------------------------------------------------------------------------------------
// Observation
// ---------------------------------------------------------------------------------------------

/// What is remembered of a flow before a packet.
pub open spec fn flow_before(state: CaptureView, id: Seq<char>) -> FlowView {
    if state.flows.contains_key(id) {
        state.flows[id]
    } else {
        new_flow()
    }
}

/// What is remembered of the direction of an endpoint.
pub open spec fn direction_before(flow: FlowView, key: Seq<char>) -> DirectionView {
    if flow.directions.contains_key(key) {
        flow.directions[key]
    } else {
        new_direction()
    }
}

/// What is remembered of a flow after a packet.
pub open spec fn flow_after(flow: FlowView, packet: decode::CapturedPacketView) -> FlowView {
    let key = key_of(packet.source);
    FlowView {
        client: client_after(flow.client, packet),
        directions: match packet.tcp {
            Some(metadata) => flow.directions.insert(
                key,
                direction_after(direction_before(flow, key), metadata, packet.payload),
            ),
            None => flow.directions,
        },
        ..flow
    }
}

/// The state after a packet.
pub open spec fn observed_state(
    state: CaptureView,
    packet: decode::CapturedPacketView,
) -> CaptureView {
    let id = packet_flow_id(packet);
    CaptureView {
        flows: state.flows.insert(id, flow_after(flow_before(state, id), packet)),
        ..state
    }
}

/// Why a packet closes its connection, if it does.
pub open spec fn close_reason(tcp: Option<decode::TcpMetadataView>) -> Option<Seq<char>> {
    if has_flag(tcp, "RST"@) {
        Some("reset"@)
    } else if has_flag(tcp, "FIN"@) {
        Some("fin"@)
    } else {
        None
    }
}

/// What a packet shows about its flow.
pub open spec fn observation(
    state: CaptureView,
    packet: decode::CapturedPacketView,
) -> ObservationView {
    let id = packet_flow_id(packet);
    let flow = flow_before(state, id);
    let before = direction_before(flow, key_of(packet.source));
    let peer = direction_before(flow, key_of(packet.destination));
    ObservationView {
        connection_id: id,
        direction: direction_from(client_after(flow.client, packet), packet.source),
        opened: has_flag(packet.tcp, "SYN"@) && !has_flag(packet.tcp, "ACK"@),
        closed: close_reason(packet.tcp),
        duplicate_ack: packet.tcp matches Some(metadata) && is_duplicate_ack(
            before,
            metadata,
            packet.payload,
        ),
        retransmitted_segment: packet.tcp matches Some(metadata) && is_retransmission(
            before,
            metadata,
            packet.payload,
        ),
        out_of_order: packet.tcp matches Some(metadata) && is_out_of_order(
            before,
            metadata,
            packet.payload,
        ),
        zero_window_probe: packet.tcp matches Some(metadata) && is_zero_window_probe(
            peer.last_window,
            metadata,
            packet.payload,
        ),
    }
}

/// Decides whether one sequence number lies before another.
fn sequence_before(sequence: u32, reference: u32) -> (r: bool)
    ensures
        r == lies_before(sequence, reference),
{
    sequence.wrapping_sub(reference) > u32::MAX / 2
}

/// Decides whether an endpoint looks like a server to its peer.
fn known_server(endpoint: &Endpoint, peer: &Endpoint) -> (r: bool)
    ensures
        r == looks_like_server(endpoint@, peer@),
{
    endpoint.port != 0 && endpoint.port <= 1024 && peer.port > 1024
}

/// Looks for a flag.
pub fn flag_set(tcp: &Option<TcpMetadata>, name: &str) -> (r: bool)
    ensures
        r == has_flag(decode::tcp_view(*tcp), name@),
{
    match tcp {
        None => false,
        Some(metadata) => {
            let mut i: usize = 0;
            while i < metadata.flags.len()
                invariant
                    i <= metadata.flags@.len(),
                    decode::tcp_view(*tcp) == Some(metadata@),
                    forall|k: int| 0 <= k < i ==> text::texts(metadata.flags@)[k] != name@,
                decreases metadata.flags@.len() - i,
            {
                if text::text_eq(metadata.flags[i].as_str(), name) {
                    assert(text::texts(metadata.flags@)[i as int] == name@);
                    return true;
                }
                i += 1;
            }
            false
        },
    }
}

/// Computes the number for a segment.
fn segment_number(sequence: u32, length: usize, flags: u8) -> (r: u128)
    requires
        flags < 4,
    ensures
        r == segment_key(sequence, length as int, flags),
{
    (sequence as u128 * 0x1_0000_0000_0000_0000 + length as u128) * 4 + flags as u128
}

/// Computes the sequence number behind a segment.
fn sequence_end(sequence: u32, length: usize, flags: u8) -> (r: u32)
    ensures
        r == reassembly::advanced(
            sequence,
            length + (if flags != 0 {
                1int
            } else {
                0
            }),
        ),
{
    let extra: u64 = if flags != 0 {
        1
    } else {
        0
    };
    ((sequence as u64 + length as u64 % 0x1_0000_0000 + extra) % 0x1_0000_0000) as u32
}

/// What a TCP packet shows about its direction.
struct TcpObservation {
    duplicate_ack: bool,
    retransmitted_segment: bool,
    out_of_order: bool,
}

impl TcpDirectionState {
    /// A direction in which nothing was seen.
    pub fn new() -> (r: Self)
        ensures
            r@ == new_direction(),
    {
        TcpDirectionState {
            seen_segments: HashSet::new(),
            highest_sequence_end: None,
            last_pure_ack: None,
            last_advertised_window: None,
        }
    }

    /// Takes note of a packet in this direction.
    fn observe(&mut self, metadata: &TcpMetadata, payload: &Vec<u8>) -> (r: TcpObservation)
        ensures
            final(self)@ == direction_after(old(self)@, metadata@, payload@),
            r.duplicate_ack == is_duplicate_ack(old(self)@, metadata@, payload@),
            r.retransmitted_segment == is_retransmission(old(self)@, metadata@, payload@),
            r.out_of_order == is_out_of_order(old(self)@, metadata@, payload@),
    {
        let length: usize = payload.len();
        let flags: u8 = metadata.flags_bits % 4;
        let takes_space = length > 0 || flags != 0;
        let mut retransmitted_segment = false;
        let mut out_of_order = false;
        if takes_space {
            let number: u128 = segment_number(metadata.sequence_number, length, flags);
            if self.seen_segments.len() >= MAX_SEEN_SEGMENTS {
                self.seen_segments.clear();
            }
            retransmitted_segment = !self.seen_segments.insert(number);
            let end: u32 = sequence_end(metadata.sequence_number, length, flags);
            match self.highest_sequence_end {
                Some(highest) => {
                    out_of_order = !retransmitted_segment && sequence_before(
                        metadata.sequence_number,
                        highest,
                    );
                    if sequence_before(highest, end) {
                        self.highest_sequence_end = Some(end);
                    }
                },
                None => {
                    self.highest_sequence_end = Some(end);
                },
            }
        }
        let mut duplicate_ack = false;
        if metadata.flags_bits == 0x10 && length == 0 {
            duplicate_ack = match self.last_pure_ack {
                Some((acknowledged, window)) => acknowledged == metadata.acknowledgement_number
                    && window == metadata.window_size,
                None => false,
            };
            self.last_pure_ack = Some((metadata.acknowledgement_number, metadata.window_size));
        }
        if metadata.flags_bits / 16 % 2 == 1 {
            self.last_advertised_window = Some(
                (metadata.acknowledgement_number, metadata.window_size),
            );
        }
        TcpObservation { duplicate_ack, retransmitted_segment, out_of_order }
    }
}

impl FlowState {
    /// A flow of which nothing is known.
    pub fn new() -> (r: Self)
        ensures
            r@ == new_flow(),
    {
        FlowState {
            client: None,
            tcp_directions: TextMap::new(),
            tls_client_hello_emitted: false,
            tls_certificate_emitted: false,
        }
    }

    /// Learns who opened the flow and says which way a packet goes.
    fn orient(&mut self, packet: &CapturedPacket) -> (r: Direction)
        ensures
            final(self)@ == (FlowView {
                client: client_after(old(self)@.client, packet@),
                ..old(self)@
            }),
            r == direction_from(client_after(old(self)@.client, packet@), packet@.source),
    {
        if self.client.is_none() {
            if (flag_set(&packet.tcp, "SYN") && !flag_set(&packet.tcp, "ACK"))
                || packet.destination.port == 53 || known_server(
                &packet.destination,
                &packet.source,
            ) {
                self.client = Some(packet.source.clone());
            } else if known_server(&packet.source, &packet.destination) {
                self.client = Some(packet.destination.clone());
            }
        }
        match &self.client {
            Some(client) => {
                if text::text_eq(client.host.as_str(), packet.source.host.as_str()) && client.port
                    == packet.source.port {
                    Direction::ClientToServer
                } else {
                    Direction::ServerToClient
                }
            },
            None => Direction::Unknown,
        }
    }

    /// The window that an endpoint advertised last.
    fn window_of(&self, key: &str) -> (r: Option<(u32, u16)>)
        ensures
            r == direction_before(self@, key@).last_window,
    {
        match self.tcp_directions.get(key) {
            Some(state) => state.last_advertised_window,
            None => None,
        }
    }
}

impl Default for CaptureState {
    /// The state before the first packet.
    fn default() -> (r: Self)
        ensures
            r@ == initial_state(),
    {
        CaptureState {
            reassembler: TcpReassembler::default(),
            flows: TextMap::new(),
            dns_queries: DnsQueries::new(),
        }
    }
}

impl CaptureState {
    /// Takes note of a packet and says what it shows about its flow.
    pub fn observe(&mut self, packet: &CapturedPacket) -> (r: FlowObservation)
        ensures
            final(self)@ == observed_state(old(self)@, packet@),
            r@ == observation(old(self)@, packet@),
    {
        let ghost before = self@;
        let connection_id = canonical_connection_id(
            packet.interface.as_str(),
            packet.protocol.as_str(),
            &packet.source,
            &packet.destination,
        );
        let ghost id = connection_id@;
        let mut flow = match self.flows.remove(connection_id.as_str()) {
            Some(flow) => flow,
            None => FlowState::new(),
        };
        let ghost flow0 = flow_before(before, id);
        assert(flow@ == flow0);
        let direction = flow.orient(packet);
        let mut duplicate_ack = false;
        let mut retransmitted_segment = false;
        let mut out_of_order = false;
        let mut zero_window_probe = false;
        if let Some(metadata) = &packet.tcp {
            let source_key = endpoint_key(&packet.source);
            let destination_key = endpoint_key(&packet.destination);
            let peer_window = flow.window_of(destination_key.as_str());
            let mut state = match flow.tcp_directions.remove(source_key.as_str()) {
                Some(state) => state,
                None => TcpDirectionState::new(),
            };
            assert(state@ == direction_before(flow0, source_key@));
            let found = state.observe(metadata, &packet.payload);
            flow.tcp_directions.insert(source_key, state);
            assert(flow.tcp_directions@ =~= flow_after(flow0, packet@).directions);
            duplicate_ack = found.duplicate_ack;
            retransmitted_segment = found.retransmitted_segment;
            out_of_order = found.out_of_order;
            if let Some((acknowledged, window)) = peer_window {
                zero_window_probe = packet.payload.len() == 1 && metadata.flags_bits % 8 == 0
                    && window == 0 && metadata.sequence_number == acknowledged.wrapping_sub(1);
            }
        }
        assert(flow@ =~= flow_after(flow0, packet@));
        self.flows.insert(connection_id.clone(), flow);
        assert(self@ =~= observed_state(before, packet@));
        let closed = if flag_set(&packet.tcp, "RST") {
            Some("reset".to_owned())
        } else if flag_set(&packet.tcp, "FIN") {
            Some("fin".to_owned())
        } else {
            None
        };
        FlowObservation {
            connection_id,
            direction,
            opened: flag_set(&packet.tcp, "SYN") && !flag_set(&packet.tcp, "ACK"),
            closed,
            duplicate_ack,
            retransmitted_segment,
            out_of_order,
            zero_window_probe,
        }
    }
}

// ---------------------------------------------------------------------------------------------
// Laws
// ---------------------------------------------------------------------------------------------

/// The two directions of a connection share its identity.
pub proof fn connection_ids_are_shared(
    interface: Seq<char>,
    protocol: Seq<char>,
    a: events::EndpointView,
    b: events::EndpointView,
)
    ensures
        flow_id(interface, protocol, a, b) == flow_id(interface, protocol, b, a),
{
    text::text_order_total(key_of(a), key_of(b));
}

/// The numbers of two segments are equal only where the segments have one sequence number, one
/// length and the same two flags.
pub proof fn segment_keys_identify_segments(
    sequence1: u32,
    length1: int,
    flags1: u8,
    sequence2: u32,
    length2: int,
    flags2: u8,
)
    requires
        0 <= length1 < 0x1_0000_0000_0000_0000,
        0 <= length2 < 0x1_0000_0000_0000_0000,
        flags1 < 4,
        flags2 < 4,
        segment_key(sequence1, length1, flags1) == segment_key(sequence2, length2, flags2),
    ensures
        sequence1 == sequence2,
        length1 == length2,
        flags1 == flags2,
{
}

/// A packet that takes no sequence numbers, such as a pure acknowledgement, is never reported as
/// a retransmission or as out of order.
pub proof fn pure_acks_are_no_retransmissions(
    state: CaptureView,
    packet: decode::CapturedPacketView,
)
    requires
        packet.tcp matches Some(metadata) && metadata.flags_bits % 4 == 0,
        packet.payload.len() == 0,
    ensures
        !observation(state, packet).retransmitted_segment,
        !observation(state, packet).out_of_order,
{
}

/// A segment that takes sequence numbers and is seen twice in a row is reported as a
/// retransmission, not as out of order, the second time, unless it was the last that could be
/// remembered.
pub proof fn repeated_segments_are_retransmissions(
    state: CaptureView,
    packet: decode::CapturedPacketView,
)
    requires
        packet.tcp matches Some(metadata) && sequence_space(metadata, packet.payload) > 0,
        direction_before(
            flow_before(observed_state(state, packet), packet_flow_id(packet)),
            key_of(packet.source),
        ).seen.len() < MAX_SEEN_SEGMENTS,
    ensures
        observation(observed_state(state, packet), packet).retransmitted_segment,
        !observation(observed_state(state, packet), packet).out_of_order,
{
}

/// The segment of a packet is remembered for its direction.
pub open spec fn segment_known(state: CaptureView, packet: decode::CapturedPacketView) -> bool {
    packet.tcp matches Some(metadata) && direction_before(
        flow_before(state, packet_flow_id(packet)),
        key_of(packet.source),
    ).seen.contains(packet_segment(metadata, packet.payload))
}

/// The direction of a packet has no room for another segment.
pub open spec fn direction_full(state: CaptureView, packet: decode::CapturedPacketView) -> bool {
    direction_before(
        flow_before(state, packet_flow_id(packet)),
        key_of(packet.source),
    ).seen.len() >= MAX_SEEN_SEGMENTS
}

/// A segment that takes sequence numbers is remembered from the packet that brings it, through
/// whatever other packets follow, until the room of its direction is used up; and as long as it is
/// remembered, it is reported as a retransmission.
pub proof fn observed_segments_are_recognized(
    state: CaptureView,
    packet: decode::CapturedPacketView,
    other: decode::CapturedPacketView,
)
    requires
        packet.tcp matches Some(metadata) && sequence_space(metadata, packet.payload) > 0,
    ensures
        segment_known(observed_state(state, packet), packet),
        segment_known(state, packet) && !direction_full(state, packet) ==> segment_known(
            observed_state(state, other),
            packet,
        ),
        segment_known(state, packet) && !direction_full(state, packet) ==> observation(
            state,
            packet,
        ).retransmitted_segment,
{
}

/// A new segment that starts before the end of one seen earlier in its direction is reported as
/// out of order, and not as a retransmission.
pub proof fn late_segments_are_out_of_order(
    state: CaptureView,
    first: decode::CapturedPacketView,
    late: decode::CapturedPacketView,
)
    requires
        packet_flow_id(late) == packet_flow_id(first),
        late.source == first.source,
        direction_before(
            flow_before(state, packet_flow_id(first)),
            key_of(first.source),
        ) == new_direction(),
        first.tcp matches Some(metadata) && sequence_space(metadata, first.payload) > 0,
        late.tcp matches Some(metadata) && sequence_space(metadata, late.payload) > 0,
        packet_segment(late.tcp->0, late.payload) != packet_segment(first.tcp->0, first.payload),
        lies_before(
            late.tcp->0.sequence_number,
            reassembly::advanced(
                first.tcp->0.sequence_number,
                sequence_space(first.tcp->0, first.payload),
            ),
        ),
    ensures
        observation(observed_state(state, first), late).out_of_order,
        !observation(observed_state(state, first), late).retransmitted_segment,
{
}

/// A peer that acknowledges and closes its window is probed by a packet the other way that holds
/// one byte, just before the number that was acknowledged: that packet is reported as a probe.
pub proof fn closed_windows_are_probed(
    state: CaptureView,
    closing: decode::CapturedPacketView,
    probe: decode::CapturedPacketView,
)
    requires
        probe.interface == closing.interface,
        probe.protocol == closing.protocol,
        probe.source == closing.destination,
        probe.destination == closing.source,
        closing.tcp matches Some(metadata) && metadata.flags_bits / 16 % 2 == 1
            && metadata.window_size == 0,
        probe.tcp matches Some(metadata) && metadata.flags_bits % 8 == 0
            && metadata.sequence_number == (closing.tcp->0.acknowledgement_number - 1)
            % 0x1_0000_0000,
        probe.payload.len() == 1,
    ensures
        observation(observed_state(state, closing), probe).zero_window_probe,
{
    connection_ids_are_shared(
        closing.interface,
        closing.protocol,
        closing.source,
        closing.destination,
    );
}

/// A packet that opens a connection of which nothing is known makes its source the client, and
/// whoever is known as the client of a flow stays so whatever packets follow.
pub proof fn openers_become_clients(
    state: CaptureView,
    packet: decode::CapturedPacketView,
    id: Seq<char>,
)
    ensures
        flow_before(state, packet_flow_id(packet)).client is None && has_flag(packet.tcp, "SYN"@)
            && !has_flag(packet.tcp, "ACK"@) ==> {
            &&& observation(state, packet).opened
            &&& observation(state, packet).direction == Direction::ClientToServer
            &&& flow_before(observed_state(state, packet), packet_flow_id(packet)).client == Some(
                packet.source,
            )
        },
        flow_before(state, id).client is Some ==> flow_before(
            observed_state(state, packet),
            id,
        ).client == flow_before(state, id).client,
{
}

/// A pure acknowledgement that is seen twice in a row is reported as a duplicate.
pub proof fn repeated_acks_are_duplicates(state: CaptureView, packet: decode::CapturedPacketView)
    requires
        packet.tcp matches Some(metadata) && is_pure_ack(metadata, packet.payload),
    ensures
        observation(observed_state(state, packet), packet).duplicate_ack,
{
}

/// Once a packet shows which endpoint is the client, a packet the other way is reported with the
/// opposite direction.
pub proof fn reverse_packets_have_opposite_directions(
    state: CaptureView,
    packet: decode::CapturedPacketView,
    reply: decode::CapturedPacketView,
)
    requires
        reply.interface == packet.interface,
        reply.protocol == packet.protocol,
        reply.source == packet.destination,
        reply.destination == packet.source,
        packet.source != packet.destination,
        flow_before(state, packet_flow_id(packet)).client matches Some(client) ==> client
            == packet.source || client == packet.destination,
        observation(state, packet).direction != Direction::Unknown,
    ensures
        observation(observed_state(state, packet), reply).connection_id == observation(
            state,
            packet,
        ).connection_id,
        observation(state, packet).direction == Direction::ClientToServer ==> observation(
            observed_state(state, packet),
            reply,
        ).direction == Direction::ServerToClient,
        observation(state, packet).direction == Direction::ServerToClient ==> observation(
            observed_state(state, packet),
            reply,
        ).direction == Direction::ClientToServer,
{
    connection_ids_are_shared(
        packet.interface,
        packet.protocol,
        packet.source,
        packet.destination,
    );
}

/// Every direction of every flow remembers a bounded number of segments.
pub open spec fn flows_bounded(flows: Map<Seq<char>, FlowView>) -> bool {
    forall|id: Seq<char>, key: Seq<char>|
        flows.contains_key(id) && flows[id].directions.contains_key(key) ==> (
        #[trigger] flows[id].directions[key]).seen.finite() && flows[id].directions[key].seen.len()
            <= MAX_SEEN_SEGMENTS
}

/// Whatever packets are observed, no direction of a flow ever remembers more than
/// [`MAX_SEEN_SEGMENTS`] segments.
pub proof fn remembered_segments_stay_bounded(
    state: CaptureView,
    packet: decode::CapturedPacketView,
)
    requires
        flows_bounded(state.flows),
    ensures
        flows_bounded(initial_state().flows),
        flows_bounded(observed_state(state, packet).flows),
{
    let id0 = packet_flow_id(packet);
    let flow0 = flow_before(state, id0);
    let after = observed_state(state, packet).flows;
    assert forall|id: Seq<char>, key: Seq<char>|
        after.contains_key(id) && after[id].directions.contains_key(key) implies (
    #[trigger] after[id].directions[key]).seen.finite() && after[id].directions[key].seen.len()
        <= MAX_SEEN_SEGMENTS by {
        if id == id0 {
            if flow0.directions.contains_key(key) {
                assert(state.flows[id].directions[key].seen.finite());
            }
        } else {
            assert(state.flows[id].directions[key].seen.finite());
        }
    }
}

/// A packet leaves what is remembered of other flows as it is, and in its own flow what is
/// remembered of the other direction.
pub proof fn flows_are_separate(
    state: CaptureView,
    packet: decode::CapturedPacketView,
    id: Seq<char>,
    key: Seq<char>,
)
    ensures
        id != packet_flow_id(packet) ==> flow_before(observed_state(state, packet), id)
            == flow_before(state, id),
        key != key_of(packet.source) ==> direction_before(
            flow_before(observed_state(state, packet), packet_flow_id(packet)),
            key,
        ) == direction_before(flow_before(state, packet_flow_id(packet)), key),
{
}

/// The texts of two endpoints are equal only where the endpoints are.
pub proof fn endpoint_keys_identify_endpoints(a: events::EndpointView, b: events::EndpointView)
    requires
        key_of(a) == key_of(b),
    ensures
        a == b,
{
    let x = key_of(a);
    let m = text::decimal(a.port as nat);
    let n = text::decimal(b.port as nat);
    text::decimals_read_back(a.port as nat);
    text::decimals_read_back(b.port as nat);
    reveal_strlit("[");
    reveal_strlit("]:");
    reveal_strlit(":");
    assert(x[x.len() - m.len() - 1] == ':');
    assert(key_of(b)[x.len() - n.len() - 1] == ':');
    if m.len() < n.len() {
        assert(key_of(b)[x.len() - m.len() - 1] == n[n.len() - m.len() - 1]);
    } else if n.len() < m.len() {
        assert(x[x.len() - n.len() - 1] == m[m.len() - n.len() - 1]);
    }
    assert(m.len() == n.len());
    assert(m =~= x.skip(x.len() - m.len()));
    assert(n =~= x.skip(x.len() - n.len()));
    assert(a.port == b.port);
    let front = x.take(x.len() - m.len());
    if a.host.contains(':') {
        assert(front =~= "["@ + a.host + "]:"@);
    } else {
        assert(front =~= a.host + ":"@);
    }
    if b.host.contains(':') {
        assert(front =~= "["@ + b.host + "]:"@);
    } else {
        assert(front =~= b.host + ":"@);
    }
    if a.host.contains(':') && b.host.contains(':') {
        assert(a.host =~= front.subrange(1, front.len() - 2));
        assert(b.host =~= front.subrange(1, front.len() - 2));
    } else if !a.host.contains(':') && !b.host.contains(':') {
        assert(a.host =~= front.take(front.len() - 1));
        assert(b.host =~= front.take(front.len() - 1));
    } else if a.host.contains(':') {
        let i = choose|i: int| 0 <= i < a.host.len() && a.host[i] == ':';
        assert(front[i + 1] == ':');
        assert(b.host[i + 1] == ':');
    } else {
        let i = choose|i: int| 0 <= i < b.host.len() && b.host[i] == ':';
        assert(front[i + 1] == ':');
        assert(a.host[i + 1] == ':');
    }
}

// ---------------------------------------------------------------------------------------------
// Laws over histories
// ---------------------------------------------------------------------------------------------

/// The state after a history of observed packets, from the state before the first packet.
pub open spec fn state_after(history: Seq<decode::CapturedPacketView>) -> CaptureView
    decreases history.len(),
{
    if history.len() == 0 {
        initial_state()
    } else {
        observed_state(state_after(history.drop_last()), history.last())
    }
}

/// The packet is a TCP packet of the connection with the given identity, from the given source.
pub open spec fn comes_from(
    packet: decode::CapturedPacketView,
    id: Seq<char>,
    source: events::EndpointView,
) -> bool {
    packet_flow_id(packet) == id && packet.source == source && packet.tcp is Some
}

/// The packet takes sequence numbers.
pub open spec fn takes_numbers(packet: decode::CapturedPacketView) -> bool {
    packet.tcp matches Some(metadata) && sequence_space(metadata, packet.payload) > 0
}

/// The packet acknowledges and does nothing else.
pub open spec fn purely_acknowledges(packet: decode::CapturedPacketView) -> bool {
    packet.tcp matches Some(metadata) && is_pure_ack(metadata, packet.payload)
}

/// The packet acknowledges.
pub open spec fn acknowledges(packet: decode::CapturedPacketView) -> bool {
    packet.tcp matches Some(metadata) && metadata.flags_bits / 16 % 2 == 1
}

/// The packet at `i` is the last pure acknowledgement of a history from the given source.
pub open spec fn last_pure_ack_at(
    history: Seq<decode::CapturedPacketView>,
    id: Seq<char>,
    source: events::EndpointView,
    i: int,
) -> bool {
    &&& 0 <= i < history.len()
    &&& comes_from(history[i], id, source) && purely_acknowledges(history[i])
    &&& forall|k: int|
        i < k < history.len() ==> !(comes_from(#[trigger] history[k], id, source)
            && purely_acknowledges(history[k]))
}

/// The packet at `i` is the last of a history from the given source that acknowledges.
pub open spec fn last_ack_at(
    history: Seq<decode::CapturedPacketView>,
    id: Seq<char>,
    source: events::EndpointView,
    i: int,
) -> bool {
    &&& 0 <= i < history.len()
    &&& comes_from(history[i], id, source) && acknowledges(history[i])
    &&& forall|k: int|
        i < k < history.len() ==> !(comes_from(#[trigger] history[k], id, source)
            && acknowledges(history[k]))
}

/// The segments of a history from the given source, each by its number.
pub open spec fn segments_seen(
    history: Seq<decode::CapturedPacketView>,
    id: Seq<char>,
    source: events::EndpointView,
) -> Set<u128>
    decreases history.len(),
{
    if history.len() == 0 {
        Set::empty()
    } else {
        let before = segments_seen(history.drop_last(), id, source);
        let last = history.last();
        if comes_from(last, id, source) && takes_numbers(last) {
            before.insert(packet_segment(last.tcp->0, last.payload))
        } else {
            before
        }
    }
}

/// The furthest end of the segments of a history from the given source: the end of the first, and
/// after it every end that lies behind the furthest so far.
pub open spec fn furthest_end(
    history: Seq<decode::CapturedPacketView>,
    id: Seq<char>,
    source: events::EndpointView,
) -> Option<u32>
    decreases history.len(),
{
    if history.len() == 0 {
        None
    } else {
        let before = furthest_end(history.drop_last(), id, source);
        let last = history.last();
        if comes_from(last, id, source) && takes_numbers(last) {
            let end = reassembly::advanced(
                last.tcp->0.sequence_number,
                sequence_space(last.tcp->0, last.payload),
            );
            match before {
                Some(furthest) => if lies_before(furthest, end) {
                    Some(end)
                } else {
                    before
                },
                None => Some(end),
            }
        } else {
            before
        }
    }
}

/// What is remembered of the direction of a source after a history.
spec fn direction_in(
    history: Seq<decode::CapturedPacketView>,
    id: Seq<char>,
    source: events::EndpointView,
) -> DirectionView {
    direction_before(flow_before(state_after(history), id), key_of(source))
}

/// A packet of a history changes what is remembered of its own direction, and of no other.
proof fn lemma_direction_step(
    history: Seq<decode::CapturedPacketView>,
    id: Seq<char>,
    source: events::EndpointView,
)
    requires
        history.len() > 0,
    ensures
        direction_in(history, id, source) == (if comes_from(history.last(), id, source) {
            direction_after(
                direction_in(history.drop_last(), id, source),
                history.last().tcp->0,
                history.last().payload,
            )
        } else {
            direction_in(history.drop_last(), id, source)
        }),
{
    let last = history.last();
    if key_of(last.source) == key_of(source) {
        endpoint_keys_identify_endpoints(last.source, source);
    }
}

proof fn lemma_pure_ack_history(
    history: Seq<decode::CapturedPacketView>,
    id: Seq<char>,
    source: events::EndpointView,
    stated: (u32, u16),
)
    ensures
        direction_in(history, id, source).last_pure_ack == Some(stated) <==> exists|i: int|
            {
                &&& #[trigger] last_pure_ack_at(history, id, source, i)
                &&& stated == (
                    history[i].tcp->0.acknowledgement_number,
                    history[i].tcp->0.window_size,
                )
            },
    decreases history.len(),
{
    if history.len() > 0 {
        let front = history.drop_last();
        let n = history.len() - 1;
        lemma_direction_step(history, id, source);
        lemma_pure_ack_history(front, id, source, stated);
        if comes_from(history[n], id, source) && purely_acknowledges(history[n]) {
            assert(last_pure_ack_at(history, id, source, n));
            assert forall|i: int| #[trigger] last_pure_ack_at(history, id, source, i) implies i
                == n by {
                if i < n {
                    assert(comes_from(history[n], id, source));
                }
            }
        } else {
            assert forall|i: int| #[trigger]
                last_pure_ack_at(history, id, source, i) == last_pure_ack_at(
                    front,
                    id,
                    source,
                    i,
                ) by {
                if last_pure_ack_at(history, id, source, i) {
                    assert(i != n);
                    assert forall|k: int| i < k < front.len() implies !(comes_from(
                        #[trigger] front[k],
                        id,
                        source,
                    ) && purely_acknowledges(front[k])) by {
                        assert(front[k] == history[k]);
                    }
                }
                if last_pure_ack_at(front, id, source, i) {
                    assert forall|k: int| i < k < history.len() implies !(comes_from(
                        #[trigger] history[k],
                        id,
                        source,
                    ) && purely_acknowledges(history[k])) by {
                        if k < n {
                            assert(front[k] == history[k]);
                        }
                    }
                }
            }
            if exists|i: int|
                {
                    &&& #[trigger] last_pure_ack_at(front, id, source, i)
                    &&& stated == (
                        front[i].tcp->0.acknowledgement_number,
                        front[i].tcp->0.window_size,
                    )
                } {
                let i = choose|i: int|
                    {
                        &&& #[trigger] last_pure_ack_at(front, id, source, i)
                        &&& stated == (
                            front[i].tcp->0.acknowledgement_number,
                            front[i].tcp->0.window_size,
                        )
                    };
                assert(last_pure_ack_at(history, id, source, i));
            }
            if exists|i: int|
                {
                    &&& #[trigger] last_pure_ack_at(history, id, source, i)
                    &&& stated == (
                        history[i].tcp->0.acknowledgement_number,
                        history[i].tcp->0.window_size,
                    )
                } {
                let i = choose|i: int|
                    {
                        &&& #[trigger] last_pure_ack_at(history, id, source, i)
                        &&& stated == (
                            history[i].tcp->0.acknowledgement_number,
                            history[i].tcp->0.window_size,
                        )
                    };
                assert(last_pure_ack_at(front, id, source, i));
            }
        }
    }
}

proof fn lemma_ack_history(
    history: Seq<decode::CapturedPacketView>,
    id: Seq<char>,
    source: events::EndpointView,
    stated: (u32, u16),
)
    ensures
        direction_in(history, id, source).last_window == Some(stated) <==> exists|i: int|
            {
                &&& #[trigger] last_ack_at(history, id, source, i)
                &&& stated == (
                    history[i].tcp->0.acknowledgement_number,
                    history[i].tcp->0.window_size,
                )
            },
    decreases history.len(),
{
    if history.len() > 0 {
        let front = history.drop_last();
        let n = history.len() - 1;
        lemma_direction_step(history, id, source);
        lemma_ack_history(front, id, source, stated);
        if comes_from(history[n], id, source) && acknowledges(history[n]) {
            assert(last_ack_at(history, id, source, n));
            assert forall|i: int| #[trigger] last_ack_at(history, id, source, i) implies i == n by {
                if i < n {
                    assert(comes_from(history[n], id, source));
                }
            }
        } else {
            assert forall|i: int| #[trigger] last_ack_at(history, id, source, i) == last_ack_at(
                front,
                id,
                source,
                i,
            ) by {
                if last_ack_at(history, id, source, i) {
                    assert(i != n);
                    assert forall|k: int| i < k < front.len() implies !(comes_from(
                        #[trigger] front[k],
                        id,
                        source,
                    ) && acknowledges(front[k])) by {
                        assert(front[k] == history[k]);
                    }
                }
                if last_ack_at(front, id, source, i) {
                    assert forall|k: int| i < k < history.len() implies !(comes_from(
                        #[trigger] history[k],
                        id,
                        source,
                    ) && acknowledges(history[k])) by {
                        if k < n {
                            assert(front[k] == history[k]);
                        }
                    }
                }
            }
            if exists|i: int|
                {
                    &&& #[trigger] last_ack_at(front, id, source, i)
                    &&& stated == (
                        front[i].tcp->0.acknowledgement_number,
                        front[i].tcp->0.window_size,
                    )
                } {
                let i = choose|i: int|
                    {
                        &&& #[trigger] last_ack_at(front, id, source, i)
                        &&& stated == (
                            front[i].tcp->0.acknowledgement_number,
                            front[i].tcp->0.window_size,
                        )
                    };
                assert(last_ack_at(history, id, source, i));
            }
            if exists|i: int|
                {
                    &&& #[trigger] last_ack_at(history, id, source, i)
                    &&& stated == (
                        history[i].tcp->0.acknowledgement_number,
                        history[i].tcp->0.window_size,
                    )
                } {
                let i = choose|i: int|
                    {
                        &&& #[trigger] last_ack_at(history, id, source, i)
                        &&& stated == (
                            history[i].tcp->0.acknowledgement_number,
                            history[i].tcp->0.window_size,
                        )
                    };
                assert(last_ack_at(front, id, source, i));
            }
        }
    }
}

proof fn lemma_segment_history(
    history: Seq<decode::CapturedPacketView>,
    id: Seq<char>,
    source: events::EndpointView,
)
    ensures
        segments_seen(history, id, source).finite(),
        segments_seen(history, id, source).len() < MAX_SEEN_SEGMENTS ==> direction_in(
            history,
            id,
            source,
        ).seen == segments_seen(history, id, source),
    decreases history.len(),
{
    if history.len() > 0 {
        lemma_direction_step(history, id, source);
        lemma_segment_history(history.drop_last(), id, source);
    }
}

proof fn lemma_segments_seen(
    history: Seq<decode::CapturedPacketView>,
    id: Seq<char>,
    source: events::EndpointView,
    segment: u128,
)
    ensures
        segments_seen(history, id, source).contains(segment) <==> exists|i: int|
            {
                &&& 0 <= i < history.len()
                &&& comes_from(#[trigger] history[i], id, source)
                &&& takes_numbers(history[i])
                &&& packet_segment(history[i].tcp->0, history[i].payload) == segment
            },
    decreases history.len(),
{
    if history.len() > 0 {
        let front = history.drop_last();
        let n = history.len() - 1;
        lemma_segments_seen(front, id, source, segment);
        assert forall|i: int| 0 <= i < n implies front[i] == history[i] by {}
        if segments_seen(front, id, source).contains(segment) {
            let i = choose|i: int|
                {
                    &&& 0 <= i < front.len()
                    &&& comes_from(#[trigger] front[i], id, source)
                    &&& takes_numbers(front[i])
                    &&& packet_segment(front[i].tcp->0, front[i].payload) == segment
                };
            assert(comes_from(history[i], id, source));
        }
        if comes_from(history[n], id, source) && takes_numbers(history[n]) && packet_segment(
            history[n].tcp->0,
            history[n].payload,
        ) == segment {
            assert(segments_seen(history, id, source).contains(segment));
        }
        if exists|i: int|
            {
                &&& 0 <= i < history.len()
                &&& comes_from(#[trigger] history[i], id, source)
                &&& takes_numbers(history[i])
                &&& packet_segment(history[i].tcp->0, history[i].payload) == segment
            } {
            let i = choose|i: int|
                {
                    &&& 0 <= i < history.len()
                    &&& comes_from(#[trigger] history[i], id, source)
                    &&& takes_numbers(history[i])
                    &&& packet_segment(history[i].tcp->0, history[i].payload) == segment
                };
            if i < n {
                assert(comes_from(front[i], id, source));
            }
        }
    }
}

proof fn lemma_end_history(
    history: Seq<decode::CapturedPacketView>,
    id: Seq<char>,
    source: events::EndpointView,
)
    ensures
        direction_in(history, id, source).highest_end == furthest_end(history, id, source),
    decreases history.len(),
{
    if history.len() > 0 {
        lemma_direction_step(history, id, source);
        lemma_end_history(history.drop_last(), id, source);
    }
}

/// After any history, a packet is reported as a duplicate acknowledgement if and only if it is a
/// pure acknowledgement and the last pure acknowledgement before it, from its source on its
/// connection, had the same acknowledgement number and the same window.
pub proof fn duplicate_acks_repeat_the_last(
    history: Seq<decode::CapturedPacketView>,
    packet: decode::CapturedPacketView,
)
    ensures
        observation(state_after(history), packet).duplicate_ack <==> {
            &&& packet.tcp matches Some(metadata)
            &&& is_pure_ack(metadata, packet.payload)
            &&& exists|i: int|
                {
                    &&& #[trigger] last_pure_ack_at(
                        history,
                        packet_flow_id(packet),
                        packet.source,
                        i,
                    )
                    &&& history[i].tcp->0.acknowledgement_number == metadata.acknowledgement_number
                    &&& history[i].tcp->0.window_size == metadata.window_size
                }
        },
{
    if let Some(metadata) = packet.tcp {
        lemma_pure_ack_history(
            history,
            packet_flow_id(packet),
            packet.source,
            (metadata.acknowledgement_number, metadata.window_size),
        );
    }
}

/// After a history with fewer distinct segments from its source than are remembered, a packet is
/// reported as a retransmission if and only if it takes sequence numbers and an earlier packet,
/// from its source on its connection, had the same sequence number, the same length and the same
/// two flags.
pub proof fn retransmissions_repeat_a_segment(
    history: Seq<decode::CapturedPacketView>,
    packet: decode::CapturedPacketView,
)
    requires
        segments_seen(history, packet_flow_id(packet), packet.source).len() < MAX_SEEN_SEGMENTS,
        packet.payload.len() <= usize::MAX,
        forall|i: int|
            0 <= i < history.len() ==> (#[trigger] history[i]).payload.len() <= usize::MAX,
    ensures
        observation(state_after(history), packet).retransmitted_segment <==> {
            &&& packet.tcp matches Some(metadata)
            &&& sequence_space(metadata, packet.payload) > 0
            &&& exists|i: int|
                {
                    &&& 0 <= i < history.len()
                    &&& comes_from(#[trigger] history[i], packet_flow_id(packet), packet.source)
                    &&& history[i].tcp->0.sequence_number == metadata.sequence_number
                    &&& history[i].payload.len() == packet.payload.len()
                    &&& history[i].tcp->0.flags_bits % 4 == metadata.flags_bits % 4
                }
        },
{
    let id = packet_flow_id(packet);
    lemma_segment_history(history, id, packet.source);
    if takes_numbers(packet) {
        let metadata = packet.tcp->0;
        let segment = packet_segment(metadata, packet.payload);
        lemma_segments_seen(history, id, packet.source, segment);
        if segments_seen(history, id, packet.source).contains(segment) {
            let i = choose|i: int|
                {
                    &&& 0 <= i < history.len()
                    &&& comes_from(#[trigger] history[i], id, packet.source)
                    &&& takes_numbers(history[i])
                    &&& packet_segment(history[i].tcp->0, history[i].payload) == segment
                };
            segment_keys_identify_segments(
                history[i].tcp->0.sequence_number,
                history[i].payload.len() as int,
                (history[i].tcp->0.flags_bits % 4) as u8,
                metadata.sequence_number,
                packet.payload.len() as int,
                (metadata.flags_bits % 4) as u8,
            );
        }
        assert forall|i: int|
            {
                &&& 0 <= i < history.len()
                &&& comes_from(#[trigger] history[i], id, packet.source)
                &&& history[i].tcp->0.sequence_number == metadata.sequence_number
                &&& history[i].payload.len() == packet.payload.len()
                &&& history[i].tcp->0.flags_bits % 4 == metadata.flags_bits % 4
            } implies takes_numbers(history[i]) && packet_segment(
            history[i].tcp->0,
            history[i].payload,
        ) == segment by {}
    }
}

/// After any history, a packet is reported as out of order if and only if it takes sequence
/// numbers, is no retransmission, and starts before the furthest end of the segments before it,
/// from its source on its connection. So it is never both.
pub proof fn out_of_order_segments_start_before_the_furthest_end(
    history: Seq<decode::CapturedPacketView>,
    packet: decode::CapturedPacketView,
)
    ensures
        observation(state_after(history), packet).out_of_order <==> {
            &&& packet.tcp matches Some(metadata)
            &&& sequence_space(metadata, packet.payload) > 0
            &&& !observation(state_after(history), packet).retransmitted_segment
            &&& furthest_end(history, packet_flow_id(packet), packet.source) matches Some(furthest)
                && lies_before(metadata.sequence_number, furthest)
        },
        !(observation(state_after(history), packet).out_of_order && observation(
            state_after(history),
            packet,
        ).retransmitted_segment),
{
    lemma_end_history(history, packet_flow_id(packet), packet.source);
}

/// After any history, a packet is reported as a probe of a closed window if and only if it holds
/// one byte, neither opens nor closes nor resets, and the last packet before it that acknowledges,
/// from its destination on its connection, had a window of zero and acknowledged the number
/// behind that byte.
pub proof fn probes_answer_the_last_window(
    history: Seq<decode::CapturedPacketView>,
    packet: decode::CapturedPacketView,
)
    ensures
        observation(state_after(history), packet).zero_window_probe <==> {
            &&& packet.tcp matches Some(metadata)
            &&& packet.payload.len() == 1
            &&& metadata.flags_bits % 8 == 0
            &&& exists|i: int|
                {
                    &&& #[trigger] last_ack_at(
                        history,
                        packet_flow_id(packet),
                        packet.destination,
                        i,
                    )
                    &&& history[i].tcp->0.window_size == 0
                    &&& (history[i].tcp->0.acknowledgement_number - 1) % 0x1_0000_0000
                        == metadata.sequence_number
                }
        },
{
    let id = packet_flow_id(packet);
    let peer = packet.destination;
    let known = direction_in(history, id, peer).last_window;
    if let Some(stated) = known {
        lemma_ack_history(history, id, peer, stated);
    }
    assert forall|i: int| #[trigger] last_ack_at(history, id, peer, i) implies known == Some(
        (history[i].tcp->0.acknowledgement_number, history[i].tcp->0.window_size),
    ) by {
        lemma_ack_history(
            history,
            id,
            peer,
            (history[i].tcp->0.acknowledgement_number, history[i].tcp->0.window_size),
        );
    }
}

} // verus!
