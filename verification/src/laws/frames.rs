//! Promises about decoded frames: which bytes of a frame make up what is reported of it.
use crate::addr;
use crate::addr::IpAddr;
use crate::capture::decode;
use crate::capture::decode::{CapturedPacketView, DecodeError};
use crate::events;
use crate::events::Fragmentation;
use crate::text;
use crate::wire;
use vstd::prelude::*;

verus! {

/// The number that two bytes make up, the higher one first.
pub open spec fn word(bytes: Seq<u8>, p: int) -> int {
    256 * bytes[p] + bytes[p + 1]
}

/// The number that four bytes make up, the highest one first.
pub open spec fn long(bytes: Seq<u8>, p: int) -> int {
    0x1_0000 * word(bytes, p) + word(bytes, p + 2)
}

/// Two bytes are read as the number they make up.
pub proof fn words_are_read(bytes: Seq<u8>, p: int)
    ensures
        wire::be16(bytes, p) == word(bytes, p),
        wire::be32(bytes, p) == long(bytes, p),
        wire::be24(bytes, p) == 256 * word(bytes, p) + bytes[p + 2],
{
}

/// What a fragment says of itself: its offset in bytes, whether more follow, and the number that
/// it shares with the others.
pub struct Fragment {
    pub offset: int,
    pub more: bool,
    pub number: int,
}

/// What is reported of a fragment is what it says of itself; nothing is reported of a packet that
/// is whole.
pub open spec fn reported_as(reported: Option<Fragmentation>, fragment: Option<Fragment>) -> bool {
    match (reported, fragment) {
        (None, None) => true,
        (Some(r), Some(f)) => {
            &&& r.is_fragmented
            &&& r.offset == f.offset
            &&& r.more_fragments == f.more
            &&& r.identification matches Some(n) && n == f.number
        },
        _ => false,
    }
}

/// The frame holds an IPv4 packet whose payload stands between two positions.
pub open spec fn holds_ipv4(
    bytes: Seq<u8>,
    transport: u8,
    from: int,
    to: int,
    fragment: Option<Fragment>,
) -> bool {
    &&& bytes.len() >= 34
    &&& bytes[12] == 8 && bytes[13] == 0
    &&& transport == bytes[23]
    &&& from == 14 + 4 * (bytes[14] % 16)
    &&& 34 <= from <= bytes.len()
    &&& 14 + word(bytes, 16) >= from
    &&& to <= bytes.len() && to <= 14 + word(bytes, 16)
    &&& to == bytes.len() || to == 14 + word(bytes, 16)
    &&& fragment == (if bytes[20] % 64 == 0 && bytes[21] == 0 {
        None
    } else {
        Some(
            Fragment {
                offset: 8 * (256 * (bytes[20] % 32) + bytes[21]),
                more: bytes[20] / 32 % 2 == 1,
                number: word(bytes, 18),
            },
        )
    })
}

/// A chain of IPv6 headers that starts at a position leads to a transport at another. The headers
/// with numbers 0, 43 and 60 have eight bytes and as many times eight as their second byte says;
/// the one with number 51 has eight bytes and as many times four; the one with number 44 has eight
/// bytes and makes the packet a fragment.
pub open spec fn leads_to(
    bytes: Seq<u8>,
    number: u8,
    p: int,
    to: int,
    earlier: Option<Fragment>,
    transport: u8,
    from: int,
    fragment: Option<Fragment>,
) -> bool
    decreases to - p,
{
    if number == 0 || number == 43 || number == 60 {
        &&& p + 2 <= to
        &&& p + 8 + 8 * bytes[p + 1] <= to
        &&& leads_to(
            bytes,
            bytes[p],
            p + 8 + 8 * bytes[p + 1],
            to,
            earlier,
            transport,
            from,
            fragment,
        )
    } else if number == 51 {
        &&& p + 2 <= to
        &&& p + 8 + 4 * bytes[p + 1] <= to
        &&& leads_to(
            bytes,
            bytes[p],
            p + 8 + 4 * bytes[p + 1],
            to,
            earlier,
            transport,
            from,
            fragment,
        )
    } else if number == 44 {
        &&& p + 8 <= to
        &&& leads_to(
            bytes,
            bytes[p],
            p + 8,
            to,
            Some(
                Fragment {
                    offset: 8 * (word(bytes, p + 2) / 8),
                    more: bytes[p + 3] % 2 == 1,
                    number: long(bytes, p + 4),
                },
            ),
            transport,
            from,
            fragment,
        )
    } else {
        transport == number && from == p && fragment == earlier
    }
}

/// The frame holds an IPv6 packet whose payload, behind the extension headers, stands between two
/// positions.
pub open spec fn holds_ipv6(
    bytes: Seq<u8>,
    transport: u8,
    from: int,
    to: int,
    fragment: Option<Fragment>,
) -> bool {
    &&& bytes.len() >= 54
    &&& bytes[12] == 0x86 && bytes[13] == 0xdd
    &&& to <= bytes.len() && to <= 54 + word(bytes, 18)
    &&& to == bytes.len() || to == 54 + word(bytes, 18)
    &&& leads_to(bytes, bytes[20], 54, to, None, transport, from, fragment)
}

/// The frame holds a packet whose payload, in a given transport protocol, stands between two
/// positions.
pub open spec fn holds_packet(
    bytes: Seq<u8>,
    transport: u8,
    from: int,
    to: int,
    fragment: Option<Fragment>,
) -> bool {
    holds_ipv4(bytes, transport, from, to, fragment) || holds_ipv6(
        bytes,
        transport,
        from,
        to,
        fragment,
    )
}

/// What is reported of every packet, whatever its transport.
pub open spec fn describes_network(
    packet: CapturedPacketView,
    bytes: Seq<u8>,
    fragment: Option<Fragment>,
) -> bool {
    &&& reported_as(packet.fragmentation, fragment)
    &&& bytes[12] == 8 ==> {
        &&& packet.ip_version == 4
        &&& packet.ttl_or_hop_limit == bytes[22]
        &&& packet.source.host == IpAddr::V4(
            bytes[26],
            bytes[27],
            bytes[28],
            bytes[29],
        ).spec_text()
        &&& packet.destination.host == IpAddr::V4(
            bytes[30],
            bytes[31],
            bytes[32],
            bytes[33],
        ).spec_text()
    }
    &&& bytes[12] == 0x86 ==> {
        &&& packet.ip_version == 6
        &&& packet.ttl_or_hop_limit == bytes[21]
        &&& holds_address(bytes, 22, packet.source.host)
        &&& holds_address(bytes, 38, packet.destination.host)
    }
}

/// The sixteen bytes at a position are the IPv6 address with the given text.
pub open spec fn holds_address(bytes: Seq<u8>, p: int, host: Seq<char>) -> bool {
    exists|a: u16, b: u16, c: u16, d: u16, e: u16, f: u16, g: u16, h: u16| {
        &&& a == word(bytes, p)
        &&& b == word(bytes, p + 2)
        &&& c == word(bytes, p + 4)
        &&& d == word(bytes, p + 6)
        &&& e == word(bytes, p + 8)
        &&& f == word(bytes, p + 10)
        &&& g == word(bytes, p + 12)
        &&& h == word(bytes, p + 14)
        &&& host == #[trigger] IpAddr::V6(a, b, c, d, e, f, g, h).spec_text()
    }
}

proof fn lemma_address(bytes: Seq<u8>, p: int)
    ensures
        holds_address(bytes, p, addr::ipv6_of(addr::segments_at(bytes, p)).spec_text()),
{
    let s = addr::segments_at(bytes, p);
    let ip = IpAddr::V6(s[0], s[1], s[2], s[3], s[4], s[5], s[6], s[7]);
    assert(ip == addr::ipv6_of(s));
}

/// What a network layer says is what the frame holds.
pub open spec fn agrees(
    network: decode::NetworkView,
    bytes: Seq<u8>,
    fragment: Option<Fragment>,
) -> bool {
    &&& reported_as(network.fragmentation, fragment)
    &&& bytes[12] == 8 ==> {
        &&& network.version == 4
        &&& network.hops == bytes[22]
        &&& network.source == IpAddr::V4(bytes[26], bytes[27], bytes[28], bytes[29])
        &&& network.destination == IpAddr::V4(bytes[30], bytes[31], bytes[32], bytes[33])
    }
    &&& bytes[12] == 0x86 ==> {
        &&& network.version == 6
        &&& network.hops == bytes[21]
        &&& network.source == addr::ipv6_of(addr::segments_at(bytes, 22))
        &&& network.destination == addr::ipv6_of(addr::segments_at(bytes, 38))
    }
}

proof fn lemma_chain(
    bytes: Seq<u8>,
    number: u8,
    p: int,
    to: int,
    before: Option<Fragmentation>,
    earlier: Option<Fragment>,
    transport: u8,
    from: int,
    fragment: Option<Fragment>,
)
    requires
        reported_as(before, earlier),
        leads_to(bytes, number, p, to, earlier, transport, from, fragment),
    ensures
        decode::extension_chain(bytes, number, p, to, before) matches Ok((t, o, f)) && t
            == transport && o == from && reported_as(f, fragment),
    decreases to - p,
{
    words_are_read(bytes, p + 2);
    words_are_read(bytes, p + 4);
    if number == 0 || number == 43 || number == 60 {
        lemma_chain(
            bytes,
            bytes[p],
            p + 8 + 8 * bytes[p + 1],
            to,
            before,
            earlier,
            transport,
            from,
            fragment,
        );
    } else if number == 51 {
        lemma_chain(
            bytes,
            bytes[p],
            p + 8 + 4 * bytes[p + 1],
            to,
            before,
            earlier,
            transport,
            from,
            fragment,
        );
    } else if number == 44 {
        let next = Fragment {
            offset: 8 * (word(bytes, p + 2) / 8),
            more: bytes[p + 3] % 2 == 1,
            number: long(bytes, p + 4),
        };
        let seen = decode::ipv6_fragmentation(bytes, p);
        assert(seen.offset == next.offset);
        assert(word(bytes, p + 2) % 2 == bytes[p + 3] % 2);
        lemma_chain(
            bytes,
            bytes[p],
            p + 8,
            to,
            Some(seen),
            Some(next),
            transport,
            from,
            fragment,
        );
    }
}

proof fn lemma_fragment_word(high: u8, low: u8)
    ensures
        (256 * high + low) % 0x2000 == 256 * (high % 32) + low,
        (256 * high + low) / 0x2000 % 2 == high / 32 % 2,
        (high % 64 == 0) == (high % 32 == 0 && high / 32 % 2 == 0),
{
}

proof fn lemma_ipv4(bytes: Seq<u8>, transport: u8, from: int, to: int, fragment: Option<Fragment>)
    requires
        holds_ipv4(bytes, transport, from, to, fragment),
    ensures
        decode::network_layer(bytes) matches Ok(network) && network.transport == transport
            && network.offset == from && network.end == to && agrees(network, bytes, fragment),
{
    words_are_read(bytes, 12);
    words_are_read(bytes, 16);
    words_are_read(bytes, 18);
    words_are_read(bytes, 20);
    lemma_fragment_word(bytes[20], bytes[21]);
    assert(reported_as(decode::ipv4_fragmentation(bytes), fragment));
    assert(decode::network_layer(bytes) == decode::ipv4_layer(bytes));
}

proof fn lemma_ipv6(bytes: Seq<u8>, transport: u8, from: int, to: int, fragment: Option<Fragment>)
    requires
        holds_ipv6(bytes, transport, from, to, fragment),
    ensures
        decode::network_layer(bytes) matches Ok(network) && network.transport == transport
            && network.offset == from && network.end == to && agrees(network, bytes, fragment),
{
    words_are_read(bytes, 12);
    words_are_read(bytes, 18);
    lemma_chain(bytes, bytes[20], 54, to, None, None, transport, from, fragment);
    assert(decode::network_layer(bytes) == decode::ipv6_layer(bytes));
}

proof fn lemma_network(
    bytes: Seq<u8>,
    transport: u8,
    from: int,
    to: int,
    fragment: Option<Fragment>,
)
    requires
        holds_packet(bytes, transport, from, to, fragment),
    ensures
        decode::network_layer(bytes) matches Ok(network) && network.transport == transport
            && network.offset == from && network.end == to && agrees(network, bytes, fragment),
{
    if holds_ipv4(bytes, transport, from, to, fragment) {
        lemma_ipv4(bytes, transport, from, to, fragment);
    } else {
        lemma_ipv6(bytes, transport, from, to, fragment);
    }
}

/// The fragment is one behind the first, which holds no transport header.
pub open spec fn is_behind(fragment: Option<Fragment>) -> bool {
    fragment matches Some(f) && f.offset != 0
}

/// A TCP packet is reported with the ports, numbers, flags and window of its header. The header
/// has four times as many bytes as the upper half of its thirteenth byte says, the options stand
/// behind its twenty fixed bytes, and the payload is exactly what follows the header in the IP
/// packet. A packet with a shorter header, or one that ends before its header, is refused.
pub proof fn tcp_payloads_follow_their_header(
    interface: Seq<char>,
    bytes: Seq<u8>,
    captured_length: usize,
    wire_length: usize,
    raw: Option<events::RawPacketReferenceView>,
    from: int,
    to: int,
    fragment: Option<Fragment>,
)
    requires
        holds_packet(bytes, 6, from, to, fragment),
        !is_behind(fragment),
    ensures
        ({
            let header = 4 * (bytes[from + 12] / 16);
            match decode::decoded(interface, bytes, captured_length, wire_length, raw) {
                Ok(packet) => {
                    &&& from + 20 <= from + header <= to
                    &&& packet.payload == bytes.subrange(from + header, to)
                    &&& packet.interface == interface
                    &&& packet.protocol == "tcp"@
                    &&& packet.captured_length == captured_length
                    &&& packet.wire_length == wire_length
                    &&& packet.raw_packet == raw
                    &&& packet.source.port == word(bytes, from)
                    &&& packet.destination.port == word(bytes, from + 2)
                    &&& packet.udp_length is None
                    &&& packet.icmp_type is None
                    &&& packet.icmp_code is None
                    &&& describes_network(packet, bytes, fragment)
                    &&& packet.tcp matches Some(tcp) && {
                        &&& tcp.sequence_number == long(bytes, from + 4)
                        &&& tcp.acknowledgement_number == long(bytes, from + 8)
                        &&& tcp.flags_bits == bytes[from + 13]
                        &&& tcp.window_size == word(bytes, from + 14)
                        &&& tcp.flags == decode::flag_names(bytes[from + 13])
                        &&& tcp.options == decode::options_at(
                            bytes.subrange(from + 20, from + header),
                            0,
                        )
                    }
                },
                Err(e) => if from + 4 > bytes.len() {
                    e == DecodeError::ShortTransport
                } else if from + 20 > to {
                    e == DecodeError::ShortTcp
                } else {
                    e == DecodeError::InvalidTcpHeader && (header < 20 || from + header > to)
                },
            }
        }),
{
    lemma_network(bytes, 6, from, to, fragment);
    lemma_address(bytes, 22);
    lemma_address(bytes, 38);
    words_are_read(bytes, from);
    words_are_read(bytes, from + 2);
    words_are_read(bytes, from + 4);
    words_are_read(bytes, from + 8);
    words_are_read(bytes, from + 14);
}

/// A UDP packet is reported with the ports and the length of its header, and the payload is
/// exactly what follows the eight bytes of the header in the IP packet. A packet that ends before
/// them is refused.
pub proof fn udp_payloads_follow_their_header(
    interface: Seq<char>,
    bytes: Seq<u8>,
    captured_length: usize,
    wire_length: usize,
    raw: Option<events::RawPacketReferenceView>,
    from: int,
    to: int,
    fragment: Option<Fragment>,
)
    requires
        holds_packet(bytes, 17, from, to, fragment),
        !is_behind(fragment),
    ensures
        match decode::decoded(interface, bytes, captured_length, wire_length, raw) {
            Ok(packet) => {
                &&& from + 8 <= to
                &&& packet.payload == bytes.subrange(from + 8, to)
                &&& packet.interface == interface
                &&& packet.protocol == "udp"@
                &&& packet.captured_length == captured_length
                &&& packet.wire_length == wire_length
                &&& packet.raw_packet == raw
                &&& packet.source.port == word(bytes, from)
                &&& packet.destination.port == word(bytes, from + 2)
                &&& packet.udp_length matches Some(length) && length == word(bytes, from + 4)
                &&& packet.tcp is None
                &&& packet.icmp_type is None
                &&& packet.icmp_code is None
                &&& describes_network(packet, bytes, fragment)
            },
            Err(e) => if from + 4 > bytes.len() {
                e == DecodeError::ShortTransport
            } else {
                e == DecodeError::ShortUdp && from + 8 > to
            },
        },
{
    lemma_network(bytes, 17, from, to, fragment);
    lemma_address(bytes, 22);
    lemma_address(bytes, 38);
    words_are_read(bytes, from);
    words_are_read(bytes, from + 2);
    words_are_read(bytes, from + 4);
}

/// A control message is reported with its type and its code and without ports; its payload is
/// what follows the eight bytes of its header, where there is anything. One without type and code
/// is refused.
pub proof fn control_messages_are_reported(
    interface: Seq<char>,
    bytes: Seq<u8>,
    captured_length: usize,
    wire_length: usize,
    raw: Option<events::RawPacketReferenceView>,
    transport: u8,
    from: int,
    to: int,
    fragment: Option<Fragment>,
)
    requires
        transport == 1 || transport == 58,
        holds_packet(bytes, transport, from, to, fragment),
        !is_behind(fragment),
    ensures
        match decode::decoded(interface, bytes, captured_length, wire_length, raw) {
            Ok(packet) => {
                &&& from + 2 <= to
                &&& from + 8 <= to ==> packet.payload == bytes.subrange(from + 8, to)
                &&& from + 8 > to ==> packet.payload.len() == 0
                &&& packet.interface == interface
                &&& packet.protocol == (if transport == 1 {
                    "icmp"@
                } else {
                    "icmpv6"@
                })
                &&& packet.captured_length == captured_length
                &&& packet.wire_length == wire_length
                &&& packet.raw_packet == raw
                &&& packet.source.port == 0
                &&& packet.destination.port == 0
                &&& packet.icmp_type == Some(bytes[from])
                &&& packet.icmp_code == Some(bytes[from + 1])
                &&& packet.udp_length is None
                &&& packet.tcp is None
                &&& describes_network(packet, bytes, fragment)
            },
            Err(e) => e == DecodeError::ShortControlMessage && from + 2 > to,
        },
{
    lemma_network(bytes, transport, from, to, fragment);
    lemma_address(bytes, 22);
    lemma_address(bytes, 38);
}

/// A fragment behind the first is reported without any field of a transport header, and its
/// payload is the whole payload of the IP packet.
pub proof fn later_fragments_have_no_transport_header(
    interface: Seq<char>,
    bytes: Seq<u8>,
    captured_length: usize,
    wire_length: usize,
    raw: Option<events::RawPacketReferenceView>,
    transport: u8,
    from: int,
    to: int,
    fragment: Option<Fragment>,
)
    requires
        transport == 1 || transport == 6 || transport == 17 || transport == 58,
        holds_packet(bytes, transport, from, to, fragment),
        is_behind(fragment),
    ensures
        decode::decoded(interface, bytes, captured_length, wire_length, raw) matches Ok(packet) && {
            &&& from <= to ==> packet.payload == bytes.subrange(from, to)
            &&& from > to ==> packet.payload.len() == 0
            &&& packet.interface == interface
            &&& packet.protocol == (if transport == 1 {
                "icmp"@
            } else if transport == 6 {
                "tcp"@
            } else if transport == 17 {
                "udp"@
            } else {
                "icmpv6"@
            })
            &&& packet.captured_length == captured_length
            &&& packet.wire_length == wire_length
            &&& packet.raw_packet == raw
            &&& packet.source.port == 0
            &&& packet.destination.port == 0
            &&& packet.tcp is None
            &&& packet.udp_length is None
            &&& packet.icmp_type is None
            &&& packet.icmp_code is None
            &&& describes_network(packet, bytes, fragment)
        },
{
    lemma_network(bytes, transport, from, to, fragment);
    lemma_address(bytes, 22);
    lemma_address(bytes, 38);
}

/// A packet in any other transport protocol is refused.
pub proof fn other_transports_are_refused(
    interface: Seq<char>,
    bytes: Seq<u8>,
    captured_length: usize,
    wire_length: usize,
    raw: Option<events::RawPacketReferenceView>,
    transport: u8,
    from: int,
    to: int,
    fragment: Option<Fragment>,
)
    requires
        transport != 1 && transport != 6 && transport != 17 && transport != 58,
        holds_packet(bytes, transport, from, to, fragment),
    ensures
        decode::decoded(interface, bytes, captured_length, wire_length, raw) == Err::<
            CapturedPacketView,
            DecodeError,
        >(DecodeError::UnsupportedTransport),
{
    lemma_network(bytes, transport, from, to, fragment);
}

/// A chain that ends somewhere leads there.
proof fn lemma_chain_end(
    bytes: Seq<u8>,
    number: u8,
    p: int,
    to: int,
    before: Option<Fragmentation>,
    earlier: Option<Fragment>,
) -> (r: (u8, int, Option<Fragment>))
    requires
        decode::extension_chain(bytes, number, p, to, before) is Ok,
    ensures
        leads_to(bytes, number, p, to, earlier, r.0, r.1, r.2),
    decreases to - p,
{
    if number == 0 || number == 43 || number == 60 {
        lemma_chain_end(bytes, bytes[p], p + 8 + 8 * bytes[p + 1], to, before, earlier)
    } else if number == 51 {
        lemma_chain_end(bytes, bytes[p], p + 8 + 4 * bytes[p + 1], to, before, earlier)
    } else if number == 44 {
        let next = Fragment {
            offset: 8 * (word(bytes, p + 2) / 8),
            more: bytes[p + 3] % 2 == 1,
            number: long(bytes, p + 4),
        };
        lemma_chain_end(
            bytes,
            bytes[p],
            p + 8,
            to,
            Some(decode::ipv6_fragmentation(bytes, p)),
            Some(next),
        )
    } else {
        (number, p, earlier)
    }
}

/// Every frame that is decoded holds a packet in one of the four transport protocols; so what is
/// reported of it is fixed by the promises about those.
pub proof fn decoded_frames_hold_a_packet(
    interface: Seq<char>,
    bytes: Seq<u8>,
    captured_length: usize,
    wire_length: usize,
    raw: Option<events::RawPacketReferenceView>,
)
    requires
        decode::decoded(interface, bytes, captured_length, wire_length, raw) is Ok,
    ensures
        exists|transport: u8, from: int, to: int, fragment: Option<Fragment>| #[trigger]
            holds_packet(bytes, transport, from, to, fragment) && (transport == 1 || transport == 6
                || transport == 17 || transport == 58),
{
    words_are_read(bytes, 12);
    words_are_read(bytes, 16);
    words_are_read(bytes, 18);
    words_are_read(bytes, 20);
    let network = decode::network_layer(bytes)->Ok_0;
    if bytes[12] == 8 {
        let fragment = if bytes[20] % 64 == 0 && bytes[21] == 0 {
            None
        } else {
            Some(
                Fragment {
                    offset: 8 * (256 * (bytes[20] % 32) + bytes[21]),
                    more: bytes[20] / 32 % 2 == 1,
                    number: word(bytes, 18),
                },
            )
        };
        assert(holds_packet(bytes, bytes[23], network.offset, network.end, fragment));
    } else {
        let (transport, from, fragment) = lemma_chain_end(
            bytes,
            bytes[20],
            54,
            network.end,
            None,
            None,
        );
        assert(holds_packet(bytes, transport, from, network.end, fragment));
        lemma_network(bytes, transport, from, network.end, fragment);
    }
}

/// A frame too short for its link header, one that holds neither IPv4 nor IPv6, one too short for
/// its IP header, and one whose IPv4 header states an impossible length are refused, each for
/// that reason.
pub proof fn broken_frames_are_refused(
    interface: Seq<char>,
    bytes: Seq<u8>,
    captured_length: usize,
    wire_length: usize,
    raw: Option<events::RawPacketReferenceView>,
)
    ensures
        ({
            let r = decode::decoded(interface, bytes, captured_length, wire_length, raw);
            let four = bytes[12] == 8 && bytes[13] == 0;
            let six = bytes[12] == 0x86 && bytes[13] == 0xdd;
            let header = 4 * (bytes[14] % 16);
            &&& bytes.len() < 14 ==> r == Err::<CapturedPacketView, DecodeError>(
                DecodeError::ShortFrame,
            )
            &&& bytes.len() >= 14 && !four && !six ==> r == Err::<CapturedPacketView, DecodeError>(
                DecodeError::UnsupportedLink,
            )
            &&& 14 <= bytes.len() < 34 && four ==> r == Err::<CapturedPacketView, DecodeError>(
                DecodeError::ShortIpv4,
            )
            &&& 14 <= bytes.len() < 54 && six ==> r == Err::<CapturedPacketView, DecodeError>(
                DecodeError::ShortIpv6,
            )
            &&& bytes.len() >= 34 && four && (header < 20 || 14 + header > bytes.len()) ==> r
                == Err::<CapturedPacketView, DecodeError>(DecodeError::InvalidIpv4Header)
            &&& bytes.len() >= 34 && four && 20 <= header && 14 + header <= bytes.len() && word(
                bytes,
                16,
            ) < header ==> r == Err::<CapturedPacketView, DecodeError>(
                DecodeError::InvalidIpv4Length,
            )
        }),
{
    words_are_read(bytes, 12);
    words_are_read(bytes, 16);
}

/// A frame made of a link header, an IPv4 header without options, a TCP header, options and data,
/// with the lengths of these in the fields that state them, is decoded back to that data and
/// those options, with the ports of the TCP header.
pub proof fn built_tcp_frames_are_decoded_back(
    interface: Seq<char>,
    link: Seq<u8>,
    ip: Seq<u8>,
    tcp: Seq<u8>,
    options: Seq<u8>,
    data: Seq<u8>,
    captured_length: usize,
    wire_length: usize,
)
    requires
        link.len() == 14,
        link[12] == 8,
        link[13] == 0,
        ip.len() == 20,
        ip[0] % 16 == 5,
        word(ip, 2) == 40 + options.len() + data.len(),
        ip[6] % 64 == 0,
        ip[7] == 0,
        ip[9] == 6,
        tcp.len() == 20,
        4 * (tcp[12] / 16) == 20 + options.len(),
    ensures
        decode::decoded(
            interface,
            link + ip + tcp + options + data,
            captured_length,
            wire_length,
            None,
        ) matches Ok(packet) && {
            &&& packet.payload == data
            &&& packet.source.port == word(tcp, 0)
            &&& packet.destination.port == word(tcp, 2)
            &&& packet.tcp matches Some(fields) && {
                &&& fields.sequence_number == long(tcp, 4)
                &&& fields.acknowledgement_number == long(tcp, 8)
                &&& fields.flags_bits == tcp[13]
                &&& fields.window_size == word(tcp, 14)
                &&& fields.options == decode::options_at(options, 0)
            }
        },
{
    let bytes = link + ip + tcp + options + data;
    let to = bytes.len() as int;
    assert forall|i: int| 0 <= i < 14 implies bytes[i] == link[i] by {}
    assert forall|i: int| 0 <= i < 20 implies bytes[14 + i] == #[trigger] ip[i] by {}
    assert forall|i: int| 0 <= i < 20 implies bytes[34 + i] == #[trigger] tcp[i] by {}
    assert(bytes[14] == ip[0] && bytes[16] == ip[2] && bytes[17] == ip[3] && bytes[20] == ip[6]
        && bytes[21] == ip[7] && bytes[23] == ip[9]);
    assert(bytes[46] == tcp[12] && bytes[47] == tcp[13] && bytes[48] == tcp[14] && bytes[49]
        == tcp[15]);
    assert(bytes[34] == tcp[0] && bytes[35] == tcp[1] && bytes[36] == tcp[2] && bytes[37]
        == tcp[3]);
    assert(bytes[38] == tcp[4] && bytes[39] == tcp[5] && bytes[40] == tcp[6] && bytes[41]
        == tcp[7]);
    assert(bytes[42] == tcp[8] && bytes[43] == tcp[9] && bytes[44] == tcp[10] && bytes[45]
        == tcp[11]);
    assert(holds_ipv4(bytes, 6, 34, to, None));
    assert(holds_packet(bytes, 6, 34, to, None));
    tcp_payloads_follow_their_header(
        interface,
        bytes,
        captured_length,
        wire_length,
        None,
        34,
        to,
        None,
    );
    assert(bytes.subrange(54int + options.len(), to) =~= data);
    assert(bytes.subrange(54, 54int + options.len()) =~= options);
}

/// The names of the flags are those whose bits are set, from the highest bit to the lowest: no bit
/// gives no name, and a set bit puts its name before those of the lower bits.
pub proof fn flags_are_named(bits: u8)
    ensures
        decode::flag_names(0) == Seq::<Seq<char>>::empty(),
        bits < 128 ==> decode::flag_names((bits + 128) as u8) == seq!["CWR"@]
            + decode::flag_names(bits),
        bits < 64 ==> decode::flag_names((bits + 64) as u8) == seq!["ECE"@]
            + decode::flag_names(bits),
        bits < 32 ==> decode::flag_names((bits + 32) as u8) == seq!["URG"@]
            + decode::flag_names(bits),
        bits < 16 ==> decode::flag_names((bits + 16) as u8) == seq!["ACK"@]
            + decode::flag_names(bits),
        bits < 8 ==> decode::flag_names((bits + 8) as u8) == seq!["PSH"@]
            + decode::flag_names(bits),
        bits < 4 ==> decode::flag_names((bits + 4) as u8) == seq!["RST"@]
            + decode::flag_names(bits),
        bits < 2 ==> decode::flag_names((bits + 2) as u8) == seq!["SYN"@]
            + decode::flag_names(bits),
        bits < 1 ==> decode::flag_names((bits + 1) as u8) == seq!["FIN"@]
            + decode::flag_names(bits),
{
    lemma_no_flags();
    if bits < 128 {
        lemma_flag_128(bits);
    }
    if bits < 64 {
        lemma_flag_64(bits);
    }
    if bits < 32 {
        lemma_flag_32(bits);
    }
    if bits < 16 {
        lemma_flag_16(bits);
    }
    if bits < 8 {
        lemma_flag_8(bits);
    }
    if bits < 4 {
        lemma_flag_4(bits);
    }
    if bits < 2 {
        lemma_flag_2(bits);
    }
    if bits < 1 {
        lemma_flag_1(bits);
    }
}

proof fn lemma_no_flags()
    ensures
        decode::flag_names(0) == Seq::<Seq<char>>::empty(),
{
}

proof fn lemma_skip(before: Seq<Seq<char>>, bits: u8, bit: u8, name: Seq<char>)
    requires
        bits / bit % 2 != 1,
    ensures
        before + decode::flag_name(bits, bit, name) == before,
{
    assert(before + Seq::<Seq<char>>::empty() =~= before);
}

proof fn lemma_step(
    first: Seq<char>,
    before: Seq<Seq<char>>,
    more: u8,
    bits: u8,
    bit: u8,
    name: Seq<char>,
)
    requires
        (more / bit % 2 == 1) == (bits / bit % 2 == 1),
    ensures
        (seq![first] + before) + decode::flag_name(more, bit, name) == seq![first] + (before
            + decode::flag_name(bits, bit, name)),
{
    assert((seq![first] + before) + decode::flag_name(bits, bit, name) =~= seq![first] + (before
        + decode::flag_name(bits, bit, name)));
}

proof fn lemma_flag_128(bits: u8)
    requires
        bits < 128,
    ensures
        decode::flag_names((bits + 128) as u8) == seq!["CWR"@] + decode::flag_names(bits),
{
    let more = (bits + 128) as u8;
    let none = Seq::<Seq<char>>::empty();
    let first = "CWR"@;
    assert(bits / 128 % 2 != 1 && more / 128 % 2 == 1);
    assert((more / 64 % 2 == 1) == (bits / 64 % 2 == 1));
    assert((more / 32 % 2 == 1) == (bits / 32 % 2 == 1));
    assert((more / 16 % 2 == 1) == (bits / 16 % 2 == 1));
    assert((more / 8 % 2 == 1) == (bits / 8 % 2 == 1));
    assert((more / 4 % 2 == 1) == (bits / 4 % 2 == 1));
    assert((more / 2 % 2 == 1) == (bits / 2 % 2 == 1));
    assert((more / 1 % 2 == 1) == (bits / 1 % 2 == 1));
    assert(decode::flag_name(more, 128, "CWR"@) =~= seq![first] && decode::flag_name(bits, 128, "CWR"@) =~= none);
    assert(seq![first] =~= seq![first] + none);
    lemma_step(first, none, more, bits, 64, "ECE"@);
    let b1 = none + decode::flag_name(bits, 64, "ECE"@);
    lemma_step(first, b1, more, bits, 32, "URG"@);
    let b2 = b1 + decode::flag_name(bits, 32, "URG"@);
    lemma_step(first, b2, more, bits, 16, "ACK"@);
    let b3 = b2 + decode::flag_name(bits, 16, "ACK"@);
    lemma_step(first, b3, more, bits, 8, "PSH"@);
    let b4 = b3 + decode::flag_name(bits, 8, "PSH"@);
    lemma_step(first, b4, more, bits, 4, "RST"@);
    let b5 = b4 + decode::flag_name(bits, 4, "RST"@);
    lemma_step(first, b5, more, bits, 2, "SYN"@);
    let b6 = b5 + decode::flag_name(bits, 2, "SYN"@);
    lemma_step(first, b6, more, bits, 1, "FIN"@);
}

proof fn lemma_flag_64(bits: u8)
    requires
        bits < 64,
    ensures
        decode::flag_names((bits + 64) as u8) == seq!["ECE"@] + decode::flag_names(bits),
{
    let more = (bits + 64) as u8;
    let none = Seq::<Seq<char>>::empty();
    let first = "ECE"@;
    assert(bits / 128 % 2 != 1 && more / 128 % 2 != 1);
    assert(bits / 64 % 2 != 1 && more / 64 % 2 == 1);
    assert((more / 32 % 2 == 1) == (bits / 32 % 2 == 1));
    assert((more / 16 % 2 == 1) == (bits / 16 % 2 == 1));
    assert((more / 8 % 2 == 1) == (bits / 8 % 2 == 1));
    assert((more / 4 % 2 == 1) == (bits / 4 % 2 == 1));
    assert((more / 2 % 2 == 1) == (bits / 2 % 2 == 1));
    assert((more / 1 % 2 == 1) == (bits / 1 % 2 == 1));
    assert(decode::flag_name(more, 128, "CWR"@) =~= none && decode::flag_name(bits, 128, "CWR"@) =~= none);
    assert(none + decode::flag_name(more, 64, "ECE"@) =~= seq![first]);
    lemma_skip(none, bits, 64, first);
    assert(seq![first] =~= seq![first] + none);
    lemma_step(first, none, more, bits, 32, "URG"@);
    let b2 = none + decode::flag_name(bits, 32, "URG"@);
    lemma_step(first, b2, more, bits, 16, "ACK"@);
    let b3 = b2 + decode::flag_name(bits, 16, "ACK"@);
    lemma_step(first, b3, more, bits, 8, "PSH"@);
    let b4 = b3 + decode::flag_name(bits, 8, "PSH"@);
    lemma_step(first, b4, more, bits, 4, "RST"@);
    let b5 = b4 + decode::flag_name(bits, 4, "RST"@);
    lemma_step(first, b5, more, bits, 2, "SYN"@);
    let b6 = b5 + decode::flag_name(bits, 2, "SYN"@);
    lemma_step(first, b6, more, bits, 1, "FIN"@);
}

proof fn lemma_flag_32(bits: u8)
    requires
        bits < 32,
    ensures
        decode::flag_names((bits + 32) as u8) == seq!["URG"@] + decode::flag_names(bits),
{
    let more = (bits + 32) as u8;
    let none = Seq::<Seq<char>>::empty();
    let first = "URG"@;
    assert(bits / 128 % 2 != 1 && more / 128 % 2 != 1);
    assert(bits / 64 % 2 != 1 && more / 64 % 2 != 1);
    assert(bits / 32 % 2 != 1 && more / 32 % 2 == 1);
    assert((more / 16 % 2 == 1) == (bits / 16 % 2 == 1));
    assert((more / 8 % 2 == 1) == (bits / 8 % 2 == 1));
    assert((more / 4 % 2 == 1) == (bits / 4 % 2 == 1));
    assert((more / 2 % 2 == 1) == (bits / 2 % 2 == 1));
    assert((more / 1 % 2 == 1) == (bits / 1 % 2 == 1));
    assert(decode::flag_name(more, 128, "CWR"@) =~= none && decode::flag_name(bits, 128, "CWR"@) =~= none);
    lemma_skip(none, more, 64, "ECE"@);
    lemma_skip(none, bits, 64, "ECE"@);
    assert(none + decode::flag_name(more, 32, "URG"@) =~= seq![first]);
    lemma_skip(none, bits, 32, first);
    assert(seq![first] =~= seq![first] + none);
    lemma_step(first, none, more, bits, 16, "ACK"@);
    let b3 = none + decode::flag_name(bits, 16, "ACK"@);
    lemma_step(first, b3, more, bits, 8, "PSH"@);
    let b4 = b3 + decode::flag_name(bits, 8, "PSH"@);
    lemma_step(first, b4, more, bits, 4, "RST"@);
    let b5 = b4 + decode::flag_name(bits, 4, "RST"@);
    lemma_step(first, b5, more, bits, 2, "SYN"@);
    let b6 = b5 + decode::flag_name(bits, 2, "SYN"@);
    lemma_step(first, b6, more, bits, 1, "FIN"@);
}

proof fn lemma_flag_16(bits: u8)
    requires
        bits < 16,
    ensures
        decode::flag_names((bits + 16) as u8) == seq!["ACK"@] + decode::flag_names(bits),
{
    let more = (bits + 16) as u8;
    let none = Seq::<Seq<char>>::empty();
    let first = "ACK"@;
    assert(bits / 128 % 2 != 1 && more / 128 % 2 != 1);
    assert(bits / 64 % 2 != 1 && more / 64 % 2 != 1);
    assert(bits / 32 % 2 != 1 && more / 32 % 2 != 1);
    assert(bits / 16 % 2 != 1 && more / 16 % 2 == 1);
    assert((more / 8 % 2 == 1) == (bits / 8 % 2 == 1));
    assert((more / 4 % 2 == 1) == (bits / 4 % 2 == 1));
    assert((more / 2 % 2 == 1) == (bits / 2 % 2 == 1));
    assert((more / 1 % 2 == 1) == (bits / 1 % 2 == 1));
    assert(decode::flag_name(more, 128, "CWR"@) =~= none && decode::flag_name(bits, 128, "CWR"@) =~= none);
    lemma_skip(none, more, 64, "ECE"@);
    lemma_skip(none, bits, 64, "ECE"@);
    lemma_skip(none, more, 32, "URG"@);
    lemma_skip(none, bits, 32, "URG"@);
    assert(none + decode::flag_name(more, 16, "ACK"@) =~= seq![first]);
    lemma_skip(none, bits, 16, first);
    assert(seq![first] =~= seq![first] + none);
    lemma_step(first, none, more, bits, 8, "PSH"@);
    let b4 = none + decode::flag_name(bits, 8, "PSH"@);
    lemma_step(first, b4, more, bits, 4, "RST"@);
    let b5 = b4 + decode::flag_name(bits, 4, "RST"@);
    lemma_step(first, b5, more, bits, 2, "SYN"@);
    let b6 = b5 + decode::flag_name(bits, 2, "SYN"@);
    lemma_step(first, b6, more, bits, 1, "FIN"@);
}

proof fn lemma_flag_8(bits: u8)
    requires
        bits < 8,
    ensures
        decode::flag_names((bits + 8) as u8) == seq!["PSH"@] + decode::flag_names(bits),
{
    let more = (bits + 8) as u8;
    let none = Seq::<Seq<char>>::empty();
    let first = "PSH"@;
    assert(bits / 128 % 2 != 1 && more / 128 % 2 != 1);
    assert(bits / 64 % 2 != 1 && more / 64 % 2 != 1);
    assert(bits / 32 % 2 != 1 && more / 32 % 2 != 1);
    assert(bits / 16 % 2 != 1 && more / 16 % 2 != 1);
    assert(bits / 8 % 2 != 1 && more / 8 % 2 == 1);
    assert((more / 4 % 2 == 1) == (bits / 4 % 2 == 1));
    assert((more / 2 % 2 == 1) == (bits / 2 % 2 == 1));
    assert((more / 1 % 2 == 1) == (bits / 1 % 2 == 1));
    assert(decode::flag_name(more, 128, "CWR"@) =~= none && decode::flag_name(bits, 128, "CWR"@) =~= none);
    lemma_skip(none, more, 64, "ECE"@);
    lemma_skip(none, bits, 64, "ECE"@);
    lemma_skip(none, more, 32, "URG"@);
    lemma_skip(none, bits, 32, "URG"@);
    lemma_skip(none, more, 16, "ACK"@);
    lemma_skip(none, bits, 16, "ACK"@);
    assert(none + decode::flag_name(more, 8, "PSH"@) =~= seq![first]);
    lemma_skip(none, bits, 8, first);
    assert(seq![first] =~= seq![first] + none);
    lemma_step(first, none, more, bits, 4, "RST"@);
    let b5 = none + decode::flag_name(bits, 4, "RST"@);
    lemma_step(first, b5, more, bits, 2, "SYN"@);
    let b6 = b5 + decode::flag_name(bits, 2, "SYN"@);
    lemma_step(first, b6, more, bits, 1, "FIN"@);
}

proof fn lemma_flag_4(bits: u8)
    requires
        bits < 4,
    ensures
        decode::flag_names((bits + 4) as u8) == seq!["RST"@] + decode::flag_names(bits),
{
    let more = (bits + 4) as u8;
    let none = Seq::<Seq<char>>::empty();
    let first = "RST"@;
    assert(bits / 128 % 2 != 1 && more / 128 % 2 != 1);
    assert(bits / 64 % 2 != 1 && more / 64 % 2 != 1);
    assert(bits / 32 % 2 != 1 && more / 32 % 2 != 1);
    assert(bits / 16 % 2 != 1 && more / 16 % 2 != 1);
    assert(bits / 8 % 2 != 1 && more / 8 % 2 != 1);
    assert(bits / 4 % 2 != 1 && more / 4 % 2 == 1);
    assert((more / 2 % 2 == 1) == (bits / 2 % 2 == 1));
    assert((more / 1 % 2 == 1) == (bits / 1 % 2 == 1));
    assert(decode::flag_name(more, 128, "CWR"@) =~= none && decode::flag_name(bits, 128, "CWR"@) =~= none);
    lemma_skip(none, more, 64, "ECE"@);
    lemma_skip(none, bits, 64, "ECE"@);
    lemma_skip(none, more, 32, "URG"@);
    lemma_skip(none, bits, 32, "URG"@);
    lemma_skip(none, more, 16, "ACK"@);
    lemma_skip(none, bits, 16, "ACK"@);
    lemma_skip(none, more, 8, "PSH"@);
    lemma_skip(none, bits, 8, "PSH"@);
    assert(none + decode::flag_name(more, 4, "RST"@) =~= seq![first]);
    lemma_skip(none, bits, 4, first);
    assert(seq![first] =~= seq![first] + none);
    lemma_step(first, none, more, bits, 2, "SYN"@);
    let b6 = none + decode::flag_name(bits, 2, "SYN"@);
    lemma_step(first, b6, more, bits, 1, "FIN"@);
}

proof fn lemma_flag_2(bits: u8)
    requires
        bits < 2,
    ensures
        decode::flag_names((bits + 2) as u8) == seq!["SYN"@] + decode::flag_names(bits),
{
    let more = (bits + 2) as u8;
    let none = Seq::<Seq<char>>::empty();
    let first = "SYN"@;
    assert(bits / 128 % 2 != 1 && more / 128 % 2 != 1);
    assert(bits / 64 % 2 != 1 && more / 64 % 2 != 1);
    assert(bits / 32 % 2 != 1 && more / 32 % 2 != 1);
    assert(bits / 16 % 2 != 1 && more / 16 % 2 != 1);
    assert(bits / 8 % 2 != 1 && more / 8 % 2 != 1);
    assert(bits / 4 % 2 != 1 && more / 4 % 2 != 1);
    assert(bits / 2 % 2 != 1 && more / 2 % 2 == 1);
    assert((more / 1 % 2 == 1) == (bits / 1 % 2 == 1));
    assert(decode::flag_name(more, 128, "CWR"@) =~= none && decode::flag_name(bits, 128, "CWR"@) =~= none);
    lemma_skip(none, more, 64, "ECE"@);
    lemma_skip(none, bits, 64, "ECE"@);
    lemma_skip(none, more, 32, "URG"@);
    lemma_skip(none, bits, 32, "URG"@);
    lemma_skip(none, more, 16, "ACK"@);
    lemma_skip(none, bits, 16, "ACK"@);
    lemma_skip(none, more, 8, "PSH"@);
    lemma_skip(none, bits, 8, "PSH"@);
    lemma_skip(none, more, 4, "RST"@);
    lemma_skip(none, bits, 4, "RST"@);
    assert(none + decode::flag_name(more, 2, "SYN"@) =~= seq![first]);
    lemma_skip(none, bits, 2, first);
    assert(seq![first] =~= seq![first] + none);
    lemma_step(first, none, more, bits, 1, "FIN"@);
}

proof fn lemma_flag_1(bits: u8)
    requires
        bits < 1,
    ensures
        decode::flag_names((bits + 1) as u8) == seq!["FIN"@] + decode::flag_names(bits),
{
    let more = (bits + 1) as u8;
    let none = Seq::<Seq<char>>::empty();
    let first = "FIN"@;
    assert(bits / 128 % 2 != 1 && more / 128 % 2 != 1);
    assert(bits / 64 % 2 != 1 && more / 64 % 2 != 1);
    assert(bits / 32 % 2 != 1 && more / 32 % 2 != 1);
    assert(bits / 16 % 2 != 1 && more / 16 % 2 != 1);
    assert(bits / 8 % 2 != 1 && more / 8 % 2 != 1);
    assert(bits / 4 % 2 != 1 && more / 4 % 2 != 1);
    assert(bits / 2 % 2 != 1 && more / 2 % 2 != 1);
    assert(bits / 1 % 2 != 1 && more / 1 % 2 == 1);
    assert(decode::flag_name(more, 128, "CWR"@) =~= none && decode::flag_name(bits, 128, "CWR"@) =~= none);
    lemma_skip(none, more, 64, "ECE"@);
    lemma_skip(none, bits, 64, "ECE"@);
    lemma_skip(none, more, 32, "URG"@);
    lemma_skip(none, bits, 32, "URG"@);
    lemma_skip(none, more, 16, "ACK"@);
    lemma_skip(none, bits, 16, "ACK"@);
    lemma_skip(none, more, 8, "PSH"@);
    lemma_skip(none, bits, 8, "PSH"@);
    lemma_skip(none, more, 4, "RST"@);
    lemma_skip(none, bits, 4, "RST"@);
    lemma_skip(none, more, 2, "SYN"@);
    lemma_skip(none, bits, 2, "SYN"@);
    assert(none + decode::flag_name(more, 1, "FIN"@) =~= seq![first]);
    lemma_skip(none, bits, 1, first);
    assert(seq![first] =~= seq![first] + none);
}

/// An option as its sender means it: its kind and its value.
pub struct SentOption {
    pub kind: u8,
    pub value: Seq<u8>,
}

/// The bytes of an option: the filler is a single byte, and every other option states its length.
pub open spec fn option_bytes(option: SentOption) -> Seq<u8> {
    if option.kind == 1 {
        seq![1u8]
    } else {
        seq![option.kind, (2 + option.value.len()) as u8] + option.value
    }
}

/// The bytes of a list of options.
pub open spec fn options_bytes(options: Seq<SentOption>) -> Seq<u8>
    decreases options.len(),
{
    if options.len() == 0 {
        Seq::empty()
    } else {
        option_bytes(options[0]) + options_bytes(options.skip(1))
    }
}

/// An option that can be sent.
pub open spec fn sendable(option: SentOption) -> bool {
    &&& option.kind != 0
    &&& option.value.len() <= 253
    &&& option.kind == 1 ==> option.value.len() == 0
}

/// What is reported of an option: the name of its kind, its length and its value, if it has any,
/// in hexadecimal digits.
pub open spec fn reported_option(
    reported: events::TcpOptionView,
    option: SentOption,
) -> bool {
    &&& reported.kind == (match option.kind {
        1 => "nop"@,
        2 => "mss"@,
        3 => "window_scale"@,
        4 => "sack_permitted"@,
        5 => "sack"@,
        8 => "timestamps"@,
        _ => "unknown"@,
    })
    &&& option.kind == 1 ==> reported.length == 1
    &&& option.kind != 1 ==> reported.length == 2 + option.value.len()
    &&& option.value.len() == 0 ==> reported.value_hex is None
    &&& option.value.len() > 0 ==> reported.value_hex == Some(text::hex_text(option.value))
}

proof fn lemma_options(before: Seq<u8>, options: Seq<SentOption>, rest: Seq<u8>)
    requires
        forall|i: int| 0 <= i < options.len() ==> sendable(#[trigger] options[i]),
        rest.len() > 0 ==> rest[0] == 0,
    ensures
        ({
            let bytes = before + options_bytes(options) + rest;
            let reported = decode::options_at(bytes, before.len() as int);
            &&& reported.len() == options.len() + (if rest.len() > 0 {
                1int
            } else {
                0
            })
            &&& forall|i: int|
                0 <= i < options.len() ==> reported_option(#[trigger] reported[i], options[i])
            &&& rest.len() > 0 ==> reported.last() == (events::TcpOptionView {
                kind: "end"@,
                length: 1,
                value_hex: None,
            })
        }),
    decreases options.len(),
{
    let bytes = before + options_bytes(options) + rest;
    let p = before.len() as int;
    if options.len() == 0 {
        assert(bytes =~= before + rest);
        if rest.len() > 0 {
            assert(bytes[p] == 0);
        }
    } else {
        let first = options[0];
        let unit = option_bytes(first);
        let others = options.skip(1);
        assert(sendable(first));
        assert(bytes =~= (before + unit) + options_bytes(others) + rest);
        assert forall|i: int| 0 <= i < others.len() implies sendable(#[trigger] others[i]) by {
            assert(others[i] == options[i + 1]);
        }
        lemma_options(before + unit, others, rest);
        assert(bytes[p] == unit[0]);
        if first.kind != 1 {
            assert(bytes[p + 1] == unit[1]);
            assert(bytes.subrange(p + 2, p + unit.len()) =~= first.value);
        }
        let reported = decode::options_at(bytes, p);
        let tail = decode::options_at(bytes, p + unit.len());
        assert(reported.skip(1) =~= tail);
        assert forall|i: int| 0 <= i < options.len() implies reported_option(
            #[trigger] reported[i],
            options[i],
        ) by {
            if i > 0 {
                assert(reported[i] == tail[i - 1]);
                assert(options[i] == others[i - 1]);
            }
        }
    }
}

/// Options are read back as they were sent, in order, up to the mark that ends them, which is
/// reported too; what stands behind the mark does not count.
pub proof fn options_are_read_back(options: Seq<SentOption>, rest: Seq<u8>)
    requires
        forall|i: int| 0 <= i < options.len() ==> sendable(#[trigger] options[i]),
        rest.len() > 0 ==> rest[0] == 0,
    ensures
        ({
            let reported = decode::options_at(options_bytes(options) + rest, 0);
            &&& reported.len() == options.len() + (if rest.len() > 0 {
                1int
            } else {
                0
            })
            &&& forall|i: int|
                0 <= i < options.len() ==> reported_option(#[trigger] reported[i], options[i])
            &&& rest.len() > 0 ==> reported.last() == (events::TcpOptionView {
                kind: "end"@,
                length: 1,
                value_hex: None,
            })
        }),
{
    lemma_options(Seq::empty(), options, rest);
    assert(Seq::<u8>::empty() + options_bytes(options) + rest =~= options_bytes(options) + rest);
}

/// An IPv6 packet that ends within one of its extension headers is refused: for a fragment header,
/// which has eight bytes, as for any other, which states its length.
pub proof fn cut_extension_headers_are_refused(
    interface: Seq<char>,
    bytes: Seq<u8>,
    captured_length: usize,
    wire_length: usize,
    raw: Option<events::RawPacketReferenceView>,
)
    requires
        bytes.len() >= 54,
        bytes[12] == 0x86,
        bytes[13] == 0xdd,
    ensures
        ({
            let r = decode::decoded(interface, bytes, captured_length, wire_length, raw);
            let room = if 54 + word(bytes, 18) <= bytes.len() {
                word(bytes, 18)
            } else {
                bytes.len() - 54
            };
            let number = bytes[20];
            &&& number == 44 && room < 8 ==> r == Err::<CapturedPacketView, DecodeError>(
                DecodeError::TruncatedFragmentHeader,
            )
            &&& (number == 0 || number == 43 || number == 60) && (room < 2 || room < 8 + 8
                * bytes[55]) ==> r == Err::<CapturedPacketView, DecodeError>(
                DecodeError::TruncatedExtensionHeader,
            )
            &&& number == 51 && (room < 2 || room < 8 + 4 * bytes[55]) ==> r == Err::<
                CapturedPacketView,
                DecodeError,
            >(DecodeError::TruncatedExtensionHeader)
        }),
{
    words_are_read(bytes, 12);
    words_are_read(bytes, 18);
}

} // verus!
