//! Ethernet frames with IPv4 or IPv6 and TCP, UDP or ICMP inside.
use crate::addr;
use crate::addr::IpAddr;
use crate::events;
use crate::events::{Endpoint, Fragmentation, RawPacketReference, TcpOption};
use crate::outside;
use crate::text;
use crate::wire;
use vstd::prelude::*;

verus! {

/// The fields of a TCP header.
#[derive(Debug, Clone)]
pub struct TcpMetadata {
    pub flags: Vec<String>,
    pub flags_bits: u8,
    pub sequence_number: u32,
    pub acknowledgement_number: u32,
    pub window_size: u16,
    pub options: Vec<TcpOption>,
}

/// A decoded packet.
#[derive(Debug, Clone)]
pub struct CapturedPacket {
    pub interface: String,
    pub source: Endpoint,
    pub destination: Endpoint,
    pub protocol: String,
    pub captured_length: usize,
    pub wire_length: usize,
    pub ip_version: u8,
    pub ttl_or_hop_limit: u8,
    pub fragmentation: Option<Fragmentation>,
    pub tcp: Option<TcpMetadata>,
    pub udp_length: Option<u16>,
    pub icmp_type: Option<u8>,
    pub icmp_code: Option<u8>,
    pub raw_packet: Option<RawPacketReference>,
    pub payload: Vec<u8>,
}

/// Why a frame cannot be decoded.
#[derive(Debug, Clone, Copy, PartialEq, Eq, Structural)]
pub enum DecodeError {
    ShortFrame,
    ShortIpv4,
    InvalidIpv4Header,
    InvalidIpv4Length,
    ShortIpv6,
    TruncatedFragmentHeader,
    TruncatedExtensionHeader,
    UnsupportedLink,
    UnsupportedTransport,
    ShortTransport,
    ShortTcp,
    InvalidTcpHeader,
    ShortUdp,
    ShortControlMessage,
}

impl DecodeError {
    /// The error in words.
    pub open spec fn spec_message(self) -> Seq<char> {
        match self {
            DecodeError::ShortFrame => "short Ethernet frame"@,
            DecodeError::ShortIpv4 => "short IPv4 packet"@,
            DecodeError::InvalidIpv4Header => "invalid IPv4 header"@,
            DecodeError::InvalidIpv4Length => "invalid IPv4 total length"@,
            DecodeError::ShortIpv6 => "short IPv6 packet"@,
            DecodeError::TruncatedFragmentHeader => "truncated IPv6 fragment header"@,
            DecodeError::TruncatedExtensionHeader => "truncated IPv6 extension header"@,
            DecodeError::UnsupportedLink => "unsupported link protocol"@,
            DecodeError::UnsupportedTransport => "unsupported IP transport"@,
            DecodeError::ShortTransport => "short IP transport"@,
            DecodeError::ShortTcp => "short TCP packet"@,
            DecodeError::InvalidTcpHeader => "invalid TCP header"@,
            DecodeError::ShortUdp => "short UDP packet"@,
            DecodeError::ShortControlMessage => "short ICMP packet"@,
        }
    }

    /// Says the error in words.
    pub fn message(self) -> (r: String)
        ensures
            r@ == self.spec_message(),
    {
        let words: &str = match self {
            DecodeError::ShortFrame => "short Ethernet frame",
            DecodeError::ShortIpv4 => "short IPv4 packet",
            DecodeError::InvalidIpv4Header => "invalid IPv4 header",
            DecodeError::InvalidIpv4Length => "invalid IPv4 total length",
            DecodeError::ShortIpv6 => "short IPv6 packet",
            DecodeError::TruncatedFragmentHeader => "truncated IPv6 fragment header",
            DecodeError::TruncatedExtensionHeader => "truncated IPv6 extension header",
            DecodeError::UnsupportedLink => "unsupported link protocol",
            DecodeError::UnsupportedTransport => "unsupported IP transport",
            DecodeError::ShortTransport => "short IP transport",
            DecodeError::ShortTcp => "short TCP packet",
            DecodeError::InvalidTcpHeader => "invalid TCP header",
            DecodeError::ShortUdp => "short UDP packet",
            DecodeError::ShortControlMessage => "short ICMP packet",
        };
        words.to_owned()
    }
}

// ---------------------------------------------------------------------------------------------
// Models
// ---------------------------------------------------------------------------------------------

/// The model of [`TcpMetadata`].
#[verifier::ext_equal]
pub struct TcpMetadataView {
    pub flags: Seq<Seq<char>>,
    pub flags_bits: u8,
    pub sequence_number: u32,
    pub acknowledgement_number: u32,
    pub window_size: u16,
    pub options: Seq<events::TcpOptionView>,
}

/// The model of a [`CapturedPacket`].
#[verifier::ext_equal]
pub struct CapturedPacketView {
    pub interface: Seq<char>,
    pub source: events::EndpointView,
    pub destination: events::EndpointView,
    pub protocol: Seq<char>,
    pub captured_length: usize,
    pub wire_length: usize,
    pub ip_version: u8,
    pub ttl_or_hop_limit: u8,
    pub fragmentation: Option<Fragmentation>,
    pub tcp: Option<TcpMetadataView>,
    pub udp_length: Option<u16>,
    pub icmp_type: Option<u8>,
    pub icmp_code: Option<u8>,
    pub raw_packet: Option<events::RawPacketReferenceView>,
    pub payload: Seq<u8>,
}

impl View for TcpMetadata {
    type V = TcpMetadataView;

    open spec fn view(&self) -> TcpMetadataView {
        TcpMetadataView {
            flags: text::texts(self.flags@),
            flags_bits: self.flags_bits,
            sequence_number: self.sequence_number,
            acknowledgement_number: self.acknowledgement_number,
            window_size: self.window_size,
            options: events::option_views(self.options@),
        }
    }
}

/// The model of metadata that may be absent.
pub open spec fn tcp_view(tcp: Option<TcpMetadata>) -> Option<TcpMetadataView> {
    match tcp {
        Some(metadata) => Some(metadata@),
        None => None,
    }
}

impl View for CapturedPacket {
    type V = CapturedPacketView;

    open spec fn view(&self) -> CapturedPacketView {
        CapturedPacketView {
            interface: self.interface@,
            source: self.source@,
            destination: self.destination@,
            protocol: self.protocol@,
            captured_length: self.captured_length,
            wire_length: self.wire_length,
            ip_version: self.ip_version,
            ttl_or_hop_limit: self.ttl_or_hop_limit,
            fragmentation: self.fragmentation,
            tcp: tcp_view(self.tcp),
            udp_length: self.udp_length,
            icmp_type: self.icmp_type,
            icmp_code: self.icmp_code,
            raw_packet: events::raw_view(self.raw_packet),
            payload: self.payload@,
        }
    }
}

/// The network layer of a frame: who talks to whom, which transport follows, from where and up to
/// where its bytes stand in the frame, and the fields that are reported.
pub struct NetworkView {
    pub source: IpAddr,
    pub destination: IpAddr,
    pub transport: u8,
    pub offset: int,
    pub end: int,
    pub version: u8,
    pub hops: u8,
    pub fragmentation: Option<Fragmentation>,
}

/// The lesser of two integers.
pub open spec fn least(a: int, b: int) -> int {
    if a <= b {
        a
    } else {
        b
    }
}

/// The fragmentation that an IPv4 header states: none where the packet is whole.
pub open spec fn ipv4_fragmentation(bytes: Seq<u8>) -> Option<Fragmentation> {
    let word = wire::be16(bytes, 20);
    let more_fragments = word / 0x2000 % 2 == 1;
    if word % 0x2000 != 0 || more_fragments {
        Some(
            Fragmentation {
                is_fragmented: true,
                offset: (word % 0x2000 * 8) as u16,
                more_fragments,
                identification: Some(wire::be16(bytes, 18) as u32),
            },
        )
    } else {
        None
    }
}

/// The network layer of an IPv4 frame.
pub open spec fn ipv4_layer(bytes: Seq<u8>) -> Result<NetworkView, DecodeError> {
    let header = (bytes[14] % 16) * 4;
    let total = wire::be16(bytes, 16);
    if bytes.len() < 34 {
        Err(DecodeError::ShortIpv4)
    } else if header < 20 || bytes.len() < 14 + header {
        Err(DecodeError::InvalidIpv4Header)
    } else if total < header {
        Err(DecodeError::InvalidIpv4Length)
    } else {
        Ok(
            NetworkView {
                source: IpAddr::V4(bytes[26], bytes[27], bytes[28], bytes[29]),
                destination: IpAddr::V4(bytes[30], bytes[31], bytes[32], bytes[33]),
                transport: bytes[23],
                offset: 14 + header,
                end: least(14 + total, bytes.len() as int),
                version: 4,
                hops: bytes[22],
                fragmentation: ipv4_fragmentation(bytes),
            },
        )
    }
}

/// A header number that stands for an IPv6 extension header.
pub open spec fn is_extension(number: u8) -> bool {
    number == 0 || number == 43 || number == 44 || number == 51 || number == 60
}

/// The fragmentation that an IPv6 fragment header states.
pub open spec fn ipv6_fragmentation(bytes: Seq<u8>, p: int) -> Fragmentation {
    let word = wire::be16(bytes, p + 2);
    Fragmentation {
        is_fragmented: true,
        offset: (word / 8 * 8) as u16,
        more_fragments: word % 2 == 1,
        identification: Some(wire::be32(bytes, p + 4)),
    }
}

/// The length of the extension header with the given number.
pub open spec fn extension_length(bytes: Seq<u8>, number: u8, p: int) -> int {
    if number == 51 {
        (bytes[p + 1] + 2) * 4
    } else {
        (bytes[p + 1] + 1) * 8
    }
}

/// Follows the chain of IPv6 extension headers from `p` on, up to `end`: the transport behind it,
/// where that starts, and the last fragment header on the way.
pub open spec fn extension_chain(
    bytes: Seq<u8>,
    number: u8,
    p: int,
    end: int,
    fragmentation: Option<Fragmentation>,
) -> Result<(u8, int, Option<Fragmentation>), DecodeError>
    decreases end - p,
{
    if !is_extension(number) {
        Ok((number, p, fragmentation))
    } else if number == 44 {
        if p + 8 > end {
            Err(DecodeError::TruncatedFragmentHeader)
        } else {
            extension_chain(bytes, bytes[p], p + 8, end, Some(ipv6_fragmentation(bytes, p)))
        }
    } else if p + 2 > end || p + extension_length(bytes, number, p) > end {
        Err(DecodeError::TruncatedExtensionHeader)
    } else {
        extension_chain(
            bytes,
            bytes[p],
            p + extension_length(bytes, number, p),
            end,
            fragmentation,
        )
    }
}

/// The network layer of an IPv6 frame.
pub open spec fn ipv6_layer(bytes: Seq<u8>) -> Result<NetworkView, DecodeError> {
    if bytes.len() < 54 {
        Err(DecodeError::ShortIpv6)
    } else {
        let end = least(54 + wire::be16(bytes, 18), bytes.len() as int);
        match extension_chain(bytes, bytes[20], 54, end, None) {
            Err(e) => Err(e),
            Ok((transport, offset, fragmentation)) => Ok(
                NetworkView {
                    source: addr::ipv6_of(addr::segments_at(bytes, 22)),
                    destination: addr::ipv6_of(addr::segments_at(bytes, 38)),
                    transport,
                    offset,
                    end,
                    version: 6,
                    hops: bytes[21],
                    fragmentation,
                },
            ),
        }
    }
}

/// The network layer of a frame.
pub open spec fn network_layer(bytes: Seq<u8>) -> Result<NetworkView, DecodeError> {
    if bytes.len() < 14 {
        Err(DecodeError::ShortFrame)
    } else if wire::be16(bytes, 12) == 0x0800 {
        ipv4_layer(bytes)
    } else if wire::be16(bytes, 12) == 0x86dd {
        ipv6_layer(bytes)
    } else {
        Err(DecodeError::UnsupportedLink)
    }
}

/// The name of a supported transport.
pub open spec fn transport_name(transport: u8) -> Option<Seq<char>> {
    if transport == 6 {
        Some("tcp"@)
    } else if transport == 17 {
        Some("udp"@)
    } else if transport == 1 {
        Some("icmp"@)
    } else if transport == 58 {
        Some("icmpv6"@)
    } else {
        None
    }
}

/// A fragment other than the first, which holds no transport header.
pub open spec fn is_later_fragment(fragmentation: Option<Fragmentation>) -> bool {
    fragmentation matches Some(fragment) && fragment.offset != 0
}

/// The source and the destination port; zero where the packet has none.
pub open spec fn ports_of(bytes: Seq<u8>, network: NetworkView) -> Result<
    (u16, u16),
    DecodeError,
> {
    if is_later_fragment(network.fragmentation) || (network.transport != 6 && network.transport
        != 17) {
        Ok((0, 0))
    } else if network.offset + 4 > bytes.len() {
        Err(DecodeError::ShortTransport)
    } else {
        Ok((wire::be16(bytes, network.offset), wire::be16(bytes, network.offset + 2)))
    }
}

/// One flag name, if its bit is set.
pub open spec fn flag_name(bits: u8, bit: u8, name: Seq<char>) -> Seq<Seq<char>> {
    if bits / bit % 2 == 1 {
        seq![name]
    } else {
        Seq::empty()
    }
}

/// The names of the set TCP flags, from the highest bit to the lowest.
pub open spec fn flag_names(bits: u8) -> Seq<Seq<char>> {
    flag_name(bits, 0x80, "CWR"@) + flag_name(bits, 0x40, "ECE"@) + flag_name(bits, 0x20, "URG"@)
        + flag_name(bits, 0x10, "ACK"@) + flag_name(bits, 0x08, "PSH"@) + flag_name(
        bits,
        0x04,
        "RST"@,
    ) + flag_name(bits, 0x02, "SYN"@) + flag_name(bits, 0x01, "FIN"@)
}

/// The name of a TCP option kind.
pub open spec fn option_name(kind: u8) -> Seq<char> {
    if kind == 0 {
        "end"@
    } else if kind == 1 {
        "nop"@
    } else if kind == 2 {
        "mss"@
    } else if kind == 3 {
        "window_scale"@
    } else if kind == 4 {
        "sack_permitted"@
    } else if kind == 5 {
        "sack"@
    } else if kind == 8 {
        "timestamps"@
    } else {
        "unknown"@
    }
}

/// The TCP options from a position on, up to the end marker or the first that does not fit.
pub open spec fn options_at(bytes: Seq<u8>, p: int) -> Seq<events::TcpOptionView>
    decreases bytes.len() - p,
{
    if p < 0 || p >= bytes.len() {
        Seq::empty()
    } else if bytes[p] == 0 {
        seq![events::TcpOptionView { kind: option_name(0), length: 1, value_hex: None }]
    } else if bytes[p] == 1 {
        seq![events::TcpOptionView { kind: option_name(1), length: 1, value_hex: None }]
            + options_at(bytes, p + 1)
    } else if p + 2 > bytes.len() || bytes[p + 1] < 2 || p + bytes[p + 1] > bytes.len() {
        Seq::empty()
    } else {
        seq![
            events::TcpOptionView {
                kind: option_name(bytes[p]),
                length: bytes[p + 1],
                value_hex: if bytes[p + 1] > 2 {
                    Some(text::hex_text(bytes.subrange(p + 2, p + bytes[p + 1])))
                } else {
                    None
                },
            },
        ] + options_at(bytes, p + bytes[p + 1])
    }
}

/// The transport layer: where the payload starts, and the fields that are reported; of a control
/// message, its type and its code.
pub struct TransportView {
    pub payload: int,
    pub tcp: Option<TcpMetadataView>,
    pub udp_length: Option<u16>,
    pub control: Option<(u8, u8)>,
}

/// The TCP layer between two positions.
pub open spec fn tcp_layer(bytes: Seq<u8>, p: int, end: int) -> Result<
    TransportView,
    DecodeError,
> {
    let header = bytes[p + 12] / 16 * 4;
    if p + 20 > end {
        Err(DecodeError::ShortTcp)
    } else if header < 20 || p + header > end {
        Err(DecodeError::InvalidTcpHeader)
    } else {
        Ok(
            TransportView {
                payload: p + header,
                tcp: Some(
                    TcpMetadataView {
                        flags: flag_names(bytes[p + 13]),
                        flags_bits: bytes[p + 13],
                        sequence_number: wire::be32(bytes, p + 4),
                        acknowledgement_number: wire::be32(bytes, p + 8),
                        window_size: wire::be16(bytes, p + 14),
                        options: options_at(bytes.subrange(p + 20, p + header), 0),
                    },
                ),
                udp_length: None,
                control: None,
            },
        )
    }
}

/// The transport layer of a frame with the given network layer.
pub open spec fn transport_layer(bytes: Seq<u8>, network: NetworkView) -> Result<
    TransportView,
    DecodeError,
> {
    let p = network.offset;
    if is_later_fragment(network.fragmentation) {
        Ok(
            TransportView {
                payload: least(p, network.end),
                tcp: None,
                udp_length: None,
                control: None,
            },
        )
    } else if network.transport == 6 {
        tcp_layer(bytes, p, network.end)
    } else if network.transport == 17 {
        if p + 8 > network.end {
            Err(DecodeError::ShortUdp)
        } else {
            Ok(
                TransportView {
                    payload: p + 8,
                    tcp: None,
                    udp_length: Some(wire::be16(bytes, p + 4)),
                    control: None,
                },
            )
        }
    } else if p + 2 > network.end {
        Err(DecodeError::ShortControlMessage)
    } else {
        Ok(
            TransportView {
                payload: least(p + 8, network.end),
                tcp: None,
                udp_length: None,
                control: Some((bytes[p], bytes[p + 1])),
            },
        )
    }
}

/// The packet that a frame holds, or why it cannot be decoded.
pub open spec fn decoded(
    interface: Seq<char>,
    bytes: Seq<u8>,
    captured_length: usize,
    wire_length: usize,
    raw_packet: Option<events::RawPacketReferenceView>,
) -> Result<CapturedPacketView, DecodeError> {
    match network_layer(bytes) {
        Err(e) => Err(e),
        Ok(network) => match transport_name(network.transport) {
            None => Err(DecodeError::UnsupportedTransport),
            Some(protocol) => match ports_of(bytes, network) {
                Err(e) => Err(e),
                Ok((source_port, destination_port)) => match transport_layer(bytes, network) {
                    Err(e) => Err(e),
                    Ok(transport) => Ok(
                        CapturedPacketView {
                            interface,
                            source: events::EndpointView {
                                host: network.source.spec_text(),
                                port: source_port,
                            },
                            destination: events::EndpointView {
                                host: network.destination.spec_text(),
                                port: destination_port,
                            },
                            protocol,
                            captured_length,
                            wire_length,
                            ip_version: network.version,
                            ttl_or_hop_limit: network.hops,
                            fragmentation: network.fragmentation,
                            tcp: transport.tcp,
                            udp_length: transport.udp_length,
                            icmp_type: match transport.control {
                                Some((kind, _)) => Some(kind),
                                None => None,
                            },
                            icmp_code: match transport.control {
                                Some((_, code)) => Some(code),
                                None => None,
                            },
                            raw_packet,
                            payload: bytes.subrange(transport.payload, network.end),
                        },
                    ),
                },
            },
        },
    }
}

// ---------------------------------------------------------------------------------------------
// Decoding
// ---------------------------------------------------------------------------------------------

/// The network layer of a frame.
struct Network {
    source: IpAddr,
    destination: IpAddr,
    transport: u8,
    offset: usize,
    end: usize,
    version: u8,
    hops: u8,
    fragmentation: Option<Fragmentation>,
}

impl View for Network {
    type V = NetworkView;

    closed spec fn view(&self) -> NetworkView {
        NetworkView {
            source: self.source,
            destination: self.destination,
            transport: self.transport,
            offset: self.offset as int,
            end: self.end as int,
            version: self.version,
            hops: self.hops,
            fragmentation: self.fragmentation,
        }
    }
}

/// A network layer that was read is the one of the model.
spec fn network_found(
    r: Result<Network, DecodeError>,
    model: Result<NetworkView, DecodeError>,
    size: nat,
) -> bool {
    match r {
        Ok(network) => model == Ok::<NetworkView, DecodeError>(network@) && network.offset
            <= network.end <= size,
        Err(e) => model == Err::<NetworkView, DecodeError>(e),
    }
}

/// Reads the network layer of an IPv4 frame.
fn parse_ipv4(bytes: &[u8]) -> (r: Result<Network, DecodeError>)
    ensures
        network_found(r, ipv4_layer(bytes@), bytes@.len()),
{
    let size: usize = bytes.len();
    if size < 34 {
        return Err(DecodeError::ShortIpv4);
    }
    let ihl: usize = (bytes[14] % 16) as usize * 4;
    if ihl < 20 || size < 14 + ihl {
        return Err(DecodeError::InvalidIpv4Header);
    }
    let total_length: usize = wire::read_be16(bytes, 16) as usize;
    if total_length < ihl {
        return Err(DecodeError::InvalidIpv4Length);
    }
    let flags_and_offset: u16 = wire::read_be16(bytes, 20);
    let fragment_offset: u16 = flags_and_offset % 0x2000 * 8;
    let more_fragments = flags_and_offset / 0x2000 % 2 == 1;
    let fragmentation = if fragment_offset != 0 || more_fragments {
        Some(
            Fragmentation {
                is_fragmented: true,
                offset: fragment_offset,
                more_fragments,
                identification: Some(wire::read_be16(bytes, 18) as u32),
            },
        )
    } else {
        None
    };
    Ok(
        Network {
            source: IpAddr::V4(bytes[26], bytes[27], bytes[28], bytes[29]),
            destination: IpAddr::V4(bytes[30], bytes[31], bytes[32], bytes[33]),
            transport: bytes[23],
            offset: 14 + ihl,
            end: if 14 + total_length <= size {
                14 + total_length
            } else {
                size
            },
            version: 4,
            hops: bytes[22],
            fragmentation,
        },
    )
}

/// Reads the IPv6 address at a position.
fn ipv6_at(bytes: &[u8], p: usize) -> (r: IpAddr)
    requires
        p + 16 <= bytes@.len(),
    ensures
        r == addr::ipv6_of(addr::segments_at(bytes@, p as int)),
{
    let s = addr::read_segments(bytes, p);
    IpAddr::V6(s[0], s[1], s[2], s[3], s[4], s[5], s[6], s[7])
}

/// Reads the network layer of an IPv6 frame, through its extension headers.
fn parse_ipv6(bytes: &[u8]) -> (r: Result<Network, DecodeError>)
    ensures
        network_found(r, ipv6_layer(bytes@), bytes@.len()),
{
    let size: usize = bytes.len();
    if size < 54 {
        return Err(DecodeError::ShortIpv6);
    }
    let payload_length: usize = wire::read_be16(bytes, 18) as usize;
    let end: usize = if 54 + payload_length <= size {
        54 + payload_length
    } else {
        size
    };
    let mut next: u8 = bytes[20];
    let mut offset: usize = 54;
    let mut fragmentation: Option<Fragmentation> = None;
    while next == 0 || next == 43 || next == 44 || next == 51 || next == 60
        invariant
            size == bytes@.len(),
            size >= 54,
            54 <= offset <= end <= size,
            end == least(54 + wire::be16(bytes@, 18), size as int),
            extension_chain(bytes@, next, offset as int, end as int, fragmentation)
                == extension_chain(bytes@, bytes@[20], 54, end as int, None),
        decreases end - offset,
    {
        if next == 44 {
            if end - offset < 8 {
                return Err(DecodeError::TruncatedFragmentHeader);
            }
            let following: u8 = bytes[offset];
            let offset_and_flags: u16 = wire::read_be16(bytes, offset + 2);
            fragmentation = Some(
                Fragmentation {
                    is_fragmented: true,
                    offset: offset_and_flags / 8 * 8,
                    more_fragments: offset_and_flags % 2 == 1,
                    identification: Some(wire::read_be32(bytes, offset + 4)),
                },
            );
            next = following;
            offset += 8;
        } else {
            if end - offset < 2 {
                return Err(DecodeError::TruncatedExtensionHeader);
            }
            let following: u8 = bytes[offset];
            let length: usize = if next == 51 {
                (bytes[offset + 1] as usize + 2) * 4
            } else {
                (bytes[offset + 1] as usize + 1) * 8
            };
            if end - offset < length {
                return Err(DecodeError::TruncatedExtensionHeader);
            }
            next = following;
            offset += length;
        }
    }
    Ok(
        Network {
            source: ipv6_at(bytes, 22),
            destination: ipv6_at(bytes, 38),
            transport: next,
            offset,
            end,
            version: 6,
            hops: bytes[21],
            fragmentation,
        },
    )
}

/// Reads a port.
fn read_port(bytes: &[u8], offset: usize) -> (r: Result<u16, DecodeError>)
    ensures
        match r {
            Ok(port) => offset + 2 <= bytes@.len() && port == wire::be16(bytes@, offset as int),
            Err(e) => offset + 2 > bytes@.len() && e == DecodeError::ShortTransport,
        },
{
    let size: usize = bytes.len();
    if offset >= size || size - offset < 2 {
        Err(DecodeError::ShortTransport)
    } else {
        Ok(wire::read_be16(bytes, offset))
    }
}

/// Appends a flag name if its bit is set.
fn push_flag(flags: &mut Vec<String>, bits: u8, bit: u8, name: &str)
    requires
        bit > 0,
    ensures
        text::texts(final(flags)@) == text::texts(old(flags)@) + flag_name(bits, bit, name@),
{
    if bits / bit % 2 == 1 {
        flags.push(name.to_owned());
    }
    assert(text::texts(flags@) =~= text::texts(old(flags)@) + flag_name(bits, bit, name@));
}

/// Names the TCP flags that are set.
pub fn tcp_flags(bits: u8) -> (r: Vec<String>)
    ensures
        text::texts(r@) == flag_names(bits),
{
    let mut flags: Vec<String> = Vec::new();
    push_flag(&mut flags, bits, 0x80, "CWR");
    push_flag(&mut flags, bits, 0x40, "ECE");
    push_flag(&mut flags, bits, 0x20, "URG");
    push_flag(&mut flags, bits, 0x10, "ACK");
    push_flag(&mut flags, bits, 0x08, "PSH");
    push_flag(&mut flags, bits, 0x04, "RST");
    push_flag(&mut flags, bits, 0x02, "SYN");
    push_flag(&mut flags, bits, 0x01, "FIN");
    assert(text::texts(flags@) =~= flag_names(bits));
    flags
}

/// Names a TCP option kind.
fn name_option(kind: u8) -> (r: String)
    ensures
        r@ == option_name(kind),
{
    let name: &str = match kind {
        0 => "end",
        1 => "nop",
        2 => "mss",
        3 => "window_scale",
        4 => "sack_permitted",
        5 => "sack",
        8 => "timestamps",
        _ => "unknown",
    };
    name.to_owned()
}

/// Reads TCP options.
fn parse_tcp_options(bytes: &[u8]) -> (r: Vec<TcpOption>)
    ensures
        events::option_views(r@) == options_at(bytes@, 0),
{
    let size: usize = bytes.len();
    let mut options: Vec<TcpOption> = Vec::new();
    let mut p: usize = 0;
    assert(events::option_views(options@) + options_at(bytes@, 0) =~= options_at(bytes@, 0));
    while p < size
        invariant_except_break
            size == bytes@.len(),
            p <= size,
            events::option_views(options@) + options_at(bytes@, p as int) == options_at(bytes@, 0),
        ensures
            events::option_views(options@) == options_at(bytes@, 0),
        decreases size - p,
    {
        let kind: u8 = bytes[p];
        let ghost before = options@;
        if kind == 0 || kind == 1 {
            options.push(TcpOption { kind: name_option(kind), length: 1, value_hex: None });
            assert(events::option_views(options@) =~= events::option_views(before).push(
                options@.last()@,
            ));
            if kind == 0 {
                assert(events::option_views(options@) =~= events::option_views(before)
                    + options_at(bytes@, p as int));
                break;
            }
            p += 1;
            assert(events::option_views(options@) + options_at(bytes@, p as int)
                =~= events::option_views(before) + options_at(bytes@, p - 1));
        } else {
            if size - p < 2 || bytes[p + 1] < 2 || (bytes[p + 1] as usize) > size - p {
                assert(events::option_views(options@) + Seq::empty() =~= events::option_views(
                    options@,
                ));
                break;
            }
            let length: usize = bytes[p + 1] as usize;
            let value_hex = if length > 2 {
                Some(
                    outside::hex_encode(vstd::slice::slice_subrange(bytes, p + 2, p + length)),
                )
            } else {
                None
            };
            options.push(
                TcpOption { kind: name_option(kind), length: bytes[p + 1], value_hex },
            );
            assert(events::option_views(options@) =~= events::option_views(before).push(
                options@.last()@,
            ));
            p += length;
            assert(events::option_views(options@) + options_at(bytes@, p as int)
                =~= events::option_views(before) + options_at(bytes@, p - length));
        }
        assert(p >= size ==> events::option_views(options@) + Seq::empty()
            =~= events::option_views(options@));
    }
    options
}

/// The transport layer of a frame.
struct Transport {
    payload: usize,
    tcp: Option<TcpMetadata>,
    udp_length: Option<u16>,
    control: Option<(u8, u8)>,
}

impl View for Transport {
    type V = TransportView;

    closed spec fn view(&self) -> TransportView {
        TransportView {
            payload: self.payload as int,
            tcp: tcp_view(self.tcp),
            udp_length: self.udp_length,
            control: self.control,
        }
    }
}

/// Reads the TCP layer between two positions.
fn parse_tcp(bytes: &[u8], offset: usize, end: usize) -> (r: Result<Transport, DecodeError>)
    requires
        offset <= end <= bytes@.len(),
    ensures
        match r {
            Ok(transport) => tcp_layer(bytes@, offset as int, end as int) == Ok::<
                TransportView,
                DecodeError,
            >(transport@) && transport.payload <= end,
            Err(e) => tcp_layer(bytes@, offset as int, end as int) == Err::<
                TransportView,
                DecodeError,
            >(e),
        },
{
    let size: usize = bytes.len();
    assert(end <= size);
    if end - offset < 20 {
        return Err(DecodeError::ShortTcp);
    }
    let header_len: usize = (bytes[offset + 12] / 16) as usize * 4;
    if header_len < 20 || end - offset < header_len {
        return Err(DecodeError::InvalidTcpHeader);
    }
    let flags_bits: u8 = bytes[offset + 13];
    let options = parse_tcp_options(
        vstd::slice::slice_subrange(bytes, offset + 20, offset + header_len),
    );
    Ok(
        Transport {
            payload: offset + header_len,
            tcp: Some(
                TcpMetadata {
                    flags: tcp_flags(flags_bits),
                    flags_bits,
                    sequence_number: wire::read_be32(bytes, offset + 4),
                    acknowledgement_number: wire::read_be32(bytes, offset + 8),
                    window_size: wire::read_be16(bytes, offset + 14),
                    options,
                },
            ),
            udp_length: None,
            control: None,
        },
    )
}

/// Reads the transport layer of a frame.
fn parse_transport(bytes: &[u8], network: &Network) -> (r: Result<Transport, DecodeError>)
    requires
        network.offset <= network.end <= bytes@.len(),
    ensures
        match r {
            Ok(transport) => transport_layer(bytes@, network@) == Ok::<
                TransportView,
                DecodeError,
            >(transport@) && transport.payload <= network.end,
            Err(e) => transport_layer(bytes@, network@) == Err::<TransportView, DecodeError>(e),
        },
{
    let size: usize = bytes.len();
    let offset: usize = network.offset;
    let end: usize = network.end;
    assert(end <= size);
    if later_fragment(&network.fragmentation) {
        return Ok(
            Transport {
                payload: offset,
                tcp: None,
                udp_length: None,
                control: None,
            },
        );
    }
    if network.transport == 6 {
        return parse_tcp(bytes, offset, end);
    }
    if network.transport == 17 {
        if end - offset < 8 {
            return Err(DecodeError::ShortUdp);
        }
        return Ok(
            Transport {
                payload: offset + 8,
                tcp: None,
                udp_length: Some(wire::read_be16(bytes, offset + 4)),
                control: None,
            },
        );
    }
    if end - offset < 2 {
        return Err(DecodeError::ShortControlMessage);
    }
    Ok(
        Transport {
            payload: if end - offset < 8 {
                end
            } else {
                offset + 8
            },
            tcp: None,
            udp_length: None,
            control: Some((bytes[offset], bytes[offset + 1])),
        },
    )
}

/// Decides whether a fragment is one without a transport header.
fn later_fragment(fragmentation: &Option<Fragmentation>) -> (r: bool)
    ensures
        r == is_later_fragment(*fragmentation),
{
    match fragmentation {
        Some(fragment) => fragment.offset != 0,
        None => false,
    }
}

/// Names a supported transport.
fn name_transport(transport: u8) -> (r: Option<String>)
    ensures
        text::opt_text(r) == transport_name(transport),
{
    match transport {
        6 => Some("tcp".to_owned()),
        17 => Some("udp".to_owned()),
        1 => Some("icmp".to_owned()),
        58 => Some("icmpv6".to_owned()),
        _ => None,
    }
}

/// Decodes a frame that was captured whole.
pub fn decode_packet(interface: String, bytes: &[u8]) -> (r: Result<CapturedPacket, DecodeError>)
    ensures
        match r {
            Ok(packet) => decoded(
                interface@,
                bytes@,
                bytes@.len() as usize,
                bytes@.len() as usize,
                None,
            ) == Ok::<CapturedPacketView, DecodeError>(packet@),
            Err(e) => decoded(
                interface@,
                bytes@,
                bytes@.len() as usize,
                bytes@.len() as usize,
                None,
            ) == Err::<CapturedPacketView, DecodeError>(e),
        },
{
    decode_packet_with_metadata(interface, bytes, bytes.len(), bytes.len(), None)
}

/// Decodes a frame, with its length on the wire and as captured and with a reference to where its
/// raw bytes are kept.
pub fn decode_packet_with_metadata(
    interface: String,
    bytes: &[u8],
    captured_length: usize,
    wire_length: usize,
    raw_packet: Option<RawPacketReference>,
) -> (r: Result<CapturedPacket, DecodeError>)
    ensures
        match r {
            Ok(packet) => decoded(
                interface@,
                bytes@,
                captured_length,
                wire_length,
                events::raw_view(raw_packet),
            ) == Ok::<CapturedPacketView, DecodeError>(packet@),
            Err(e) => decoded(
                interface@,
                bytes@,
                captured_length,
                wire_length,
                events::raw_view(raw_packet),
            ) == Err::<CapturedPacketView, DecodeError>(e),
        },
{
    let size: usize = bytes.len();
    if size < 14 {
        return Err(DecodeError::ShortFrame);
    }
    let ethertype: u16 = wire::read_be16(bytes, 12);
    let found = if ethertype == 0x0800 {
        parse_ipv4(bytes)
    } else if ethertype == 0x86dd {
        parse_ipv6(bytes)
    } else {
        Err(DecodeError::UnsupportedLink)
    };
    let network = match found {
        Ok(network) => network,
        Err(e) => {
            return Err(e);
        },
    };
    let protocol = match name_transport(network.transport) {
        Some(name) => name,
        None => {
            return Err(DecodeError::UnsupportedTransport);
        },
    };
    let mut source_port: u16 = 0;
    let mut destination_port: u16 = 0;
    if !later_fragment(&network.fragmentation) && (network.transport == 6 || network.transport
        == 17) {
        source_port = match read_port(bytes, network.offset) {
            Ok(port) => port,
            Err(e) => {
                return Err(e);
            },
        };
        destination_port = match read_port(bytes, network.offset + 2) {
            Ok(port) => port,
            Err(e) => {
                return Err(e);
            },
        };
    }
    let transport = match parse_transport(bytes, &network) {
        Ok(transport) => transport,
        Err(e) => {
            return Err(e);
        },
    };
    let payload = vstd::slice::slice_to_vec(
        vstd::slice::slice_subrange(bytes, transport.payload, network.end),
    );
    let (icmp_type, icmp_code) = match transport.control {
        Some((kind, code)) => (Some(kind), Some(code)),
        None => (None, None),
    };
    let source_host = network.source.to_text();
    let destination_host = network.destination.to_text();
    Ok(
        CapturedPacket {
            interface,
            source: Endpoint { host: source_host, port: source_port },
            destination: Endpoint { host: destination_host, port: destination_port },
            protocol,
            captured_length,
            wire_length,
            ip_version: network.version,
            ttl_or_hop_limit: network.hops,
            fragmentation: network.fragmentation,
            tcp: transport.tcp,
            udp_length: transport.udp_length,
            icmp_type,
            icmp_code,
            raw_packet,
            payload,
        },
    )
}

// ---------------------------------------------------------------------------------------------
// Laws
// ---------------------------------------------------------------------------------------------

/// Where the packet in a frame ends, as its network header states it.
pub open spec fn stated_end(frame: Seq<u8>) -> int {
    if wire::be16(frame, 12) == 0x0800 {
        14 + wire::be16(frame, 16)
    } else {
        54 + wire::be16(frame, 18)
    }
}

proof fn lemma_chain_of_longer_frame(
    bytes: Seq<u8>,
    frame: Seq<u8>,
    number: u8,
    p: int,
    end: int,
    fragmentation: Option<Fragmentation>,
)
    requires
        0 <= p,
        end <= bytes.len() <= frame.len(),
        frame.take(bytes.len() as int) == bytes,
    ensures
        extension_chain(bytes, number, p, end, fragmentation) == extension_chain(
            frame,
            number,
            p,
            end,
            fragmentation,
        ),
        extension_chain(bytes, number, p, end, fragmentation) matches Ok((_, q, _)) ==> p <= q,
    decreases end - p,
{
    assert forall|i: int| 0 <= i < bytes.len() implies bytes[i] == frame[i] by {
        assert(bytes[i] == frame.take(bytes.len() as int)[i]);
    }
    if is_extension(number) {
        if number == 44 {
            if p + 8 <= end {
                lemma_chain_of_longer_frame(
                    bytes,
                    frame,
                    bytes[p],
                    p + 8,
                    end,
                    Some(ipv6_fragmentation(bytes, p)),
                );
            }
        } else if p + 2 <= end && p + extension_length(bytes, number, p) <= end {
            lemma_chain_of_longer_frame(
                bytes,
                frame,
                bytes[p],
                p + extension_length(bytes, number, p),
                end,
                fragmentation,
            );
        }
    }
}

proof fn lemma_network_of_longer_frame(bytes: Seq<u8>, frame: Seq<u8>)
    requires
        bytes.len() <= frame.len(),
        frame.take(bytes.len() as int) == bytes,
        stated_end(frame) <= bytes.len(),
        network_layer(frame) is Ok || network_layer(bytes) is Ok,
    ensures
        network_layer(frame) == network_layer(bytes),
        network_layer(bytes) matches Ok(network) && 0 <= network.end <= bytes.len()
            && network.offset >= 14,
{
    assert forall|i: int| 0 <= i < bytes.len() implies bytes[i] == frame[i] by {
        assert(bytes[i] == frame.take(bytes.len() as int)[i]);
    }
    if wire::be16(frame, 12) != 0x0800 {
        assert(bytes.len() >= 54);
        lemma_chain_of_longer_frame(bytes, frame, frame[20], 54, stated_end(frame), None);
    }
}

proof fn lemma_transport_of_longer_frame(bytes: Seq<u8>, frame: Seq<u8>, network: NetworkView)
    requires
        bytes.len() <= frame.len(),
        frame.take(bytes.len() as int) == bytes,
        0 <= network.offset,
        0 <= network.end <= bytes.len(),
    ensures
        transport_layer(frame, network) == transport_layer(bytes, network),
        transport_layer(bytes, network) matches Ok(transport) ==> 0 <= transport.payload
            <= network.end,
        transport_layer(bytes, network) is Ok ==> ports_of(frame, network) == ports_of(
            bytes,
            network,
        ),
{
    assert forall|i: int| 0 <= i < bytes.len() implies bytes[i] == frame[i] by {
        assert(bytes[i] == frame.take(bytes.len() as int)[i]);
    }
    let p = network.offset;
    if !is_later_fragment(network.fragmentation) && network.transport == 6 && p + 20
        <= network.end {
        let header = bytes[p + 12] / 16 * 4;
        if header >= 20 && p + header <= network.end {
            assert(frame.subrange(p + 20, p + header) =~= bytes.subrange(p + 20, p + header));
        }
    }
}

/// The bytes that pad a frame behind its packet reach nothing that is decoded, the payload least
/// of all: with them or without them, the packet is the same.
pub proof fn padding_is_left_out(
    interface: Seq<char>,
    bytes: Seq<u8>,
    padding: Seq<u8>,
    captured_length: usize,
    wire_length: usize,
    raw_packet: Option<events::RawPacketReferenceView>,
)
    requires
        stated_end(bytes + padding) <= bytes.len(),
    ensures
        ({
            let whole = decoded(
                interface,
                bytes + padding,
                captured_length,
                wire_length,
                raw_packet,
            );
            let bare = decoded(interface, bytes, captured_length, wire_length, raw_packet);
            whole is Ok || bare is Ok ==> whole == bare
        }),
{
    let frame = bytes + padding;
    assert(frame.take(bytes.len() as int) =~= bytes);
    if network_layer(frame) is Ok || network_layer(bytes) is Ok {
        lemma_network_of_longer_frame(bytes, frame);
        let network = network_layer(bytes)->Ok_0;
        lemma_transport_of_longer_frame(bytes, frame, network);
        if transport_layer(bytes, network) is Ok {
            let start = transport_layer(bytes, network)->Ok_0.payload;
            assert(frame.subrange(start, network.end) =~= bytes.subrange(start, network.end));
        }
    }
}

} // verus!
