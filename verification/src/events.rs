//! Events: what is reported of the observed traffic.
use crate::addr;
use crate::addr::IpAddr;
use crate::text;
use crate::textmap::{Headers, TextMap};
use vstd::prelude::*;
use vstd::string::StringExecFns;

verus! {

/// The identity of a connection.
pub type ConnectionId = String;

/// One observation.
#[derive(Debug, Clone)]
pub struct TrafficEvent {
    pub id: String,
    pub timestamp_ms: u128,
    pub connection_id: ConnectionId,
    pub direction: Direction,
    pub source: Endpoint,
    pub destination: Endpoint,
    pub kind: EventKind,
    pub attributes: TextMap<bool>,
}

/// Which way an observed message went.
#[derive(Debug, Clone, Copy, PartialEq, Eq, Structural)]
pub enum Direction {
    ClientToServer,
    ServerToClient,
    Unknown,
}

/// A host and a port.
#[derive(Debug)]
pub struct Endpoint {
    pub host: String,
    pub port: u16,
}

/// Metadata retained for a raw packet when `capture --pcapng` is enabled.
#[derive(Debug, Clone)]
pub struct RawPacketReference {
    pub packet_id: String,
    pub file: String,
    pub offset: u64,
}

/// The fragmentation fields of an IP packet.
#[derive(Debug, Clone, Copy, PartialEq, Eq, Structural)]
pub struct Fragmentation {
    pub is_fragmented: bool,
    pub offset: u16,
    pub more_fragments: bool,
    pub identification: Option<u32>,
}

/// One TCP option.
#[derive(Debug, Clone)]
pub struct TcpOption {
    pub kind: String,
    pub length: u8,
    pub value_hex: Option<String>,
}

/// What was observed.
#[derive(Debug, Clone)]
#[allow(inconsistent_fields)]
pub enum EventKind {
    ConnectionOpened { transport: String },
    ConnectionClosed { reason: Option<String> },
    Packet {
        interface: String,
        protocol: String,
        /// Retained for compatibility; this is always the transport payload length.
        length: usize,
        captured_length: usize,
        wire_length: usize,
        payload_length: usize,
        ip_version: u8,
        ttl_or_hop_limit: u8,
        fragmentation: Option<Fragmentation>,
        tcp_flags: Option<Vec<String>>,
        sequence_number: Option<u32>,
        acknowledgement_number: Option<u32>,
        window_size: Option<u16>,
        tcp_options: Option<Vec<TcpOption>>,
        udp_length: Option<u16>,
        icmp_type: Option<u8>,
        icmp_code: Option<u8>,
        raw_packet: Option<RawPacketReference>,
    },
    Dns {
        query: Option<String>,
        record_type: Option<u16>,
        response_code: Option<u8>,
        transaction_id: u16,
        is_response: bool,
        answers: Vec<String>,
        cname_chain: Vec<String>,
        latency_ms: Option<u128>,
    },
    HttpRequest { method: String, target: String, version: String, headers: Headers },
    HttpResponse { status: u16, reason: String, headers: Headers },
    HttpBody { direction: Direction, length: usize, content_type: Option<String> },
    TlsClientHello {
        sni: Option<String>,
        alpn: Vec<String>,
        tls_version: String,
        cipher_suites: Vec<String>,
    },
    TlsCertificate {
        subject: Option<String>,
        issuer: Option<String>,
        serial: Option<String>,
        not_after: Option<String>,
    },
    Tunnel { authority: String, intercepted: bool },
    Error { message: String },
}

/// Which traffic is of interest; an empty list admits everything.
#[derive(Debug, Clone)]
pub struct TrafficFilter {
    pub interfaces: Vec<String>,
    pub protocols: Vec<String>,
    pub ips: Vec<IpAddr>,
    pub hostnames: Vec<String>,
    pub ports: Vec<u16>,
    pub process: Option<String>,
}

/// An observation before it is stamped with a time and a number.
#[derive(Debug, Clone)]
pub struct EventDraft {
    pub connection_id: ConnectionId,
    pub direction: Direction,
    pub source: Endpoint,
    pub destination: Endpoint,
    pub kind: EventKind,
    pub attributes: TextMap<bool>,
}

// ---------------------------------------------------------------------------------------------
// Models
// ---------------------------------------------------------------------------------------------

/// The model of an [`Endpoint`].
pub struct EndpointView {
    pub host: Seq<char>,
    pub port: u16,
}

/// The model of a [`RawPacketReference`].
pub struct RawPacketReferenceView {
    pub packet_id: Seq<char>,
    pub file: Seq<char>,
    pub offset: u64,
}

/// The model of a [`TcpOption`].
#[verifier::ext_equal]
pub struct TcpOptionView {
    pub kind: Seq<char>,
    pub length: u8,
    pub value_hex: Option<Seq<char>>,
}

/// The model of an [`EventKind`].
#[allow(inconsistent_fields)]
pub enum EventKindView {
    ConnectionOpened { transport: Seq<char> },
    ConnectionClosed { reason: Option<Seq<char>> },
    Packet {
        interface: Seq<char>,
        protocol: Seq<char>,
        length: usize,
        captured_length: usize,
        wire_length: usize,
        payload_length: usize,
        ip_version: u8,
        ttl_or_hop_limit: u8,
        fragmentation: Option<Fragmentation>,
        tcp_flags: Option<Seq<Seq<char>>>,
        sequence_number: Option<u32>,
        acknowledgement_number: Option<u32>,
        window_size: Option<u16>,
        tcp_options: Option<Seq<TcpOptionView>>,
        udp_length: Option<u16>,
        icmp_type: Option<u8>,
        icmp_code: Option<u8>,
        raw_packet: Option<RawPacketReferenceView>,
    },
    Dns {
        query: Option<Seq<char>>,
        record_type: Option<u16>,
        response_code: Option<u8>,
        transaction_id: u16,
        is_response: bool,
        answers: Seq<Seq<char>>,
        cname_chain: Seq<Seq<char>>,
        latency_ms: Option<u128>,
    },
    HttpRequest {
        method: Seq<char>,
        target: Seq<char>,
        version: Seq<char>,
        headers: Map<Seq<char>, Seq<char>>,
    },
    HttpResponse { status: u16, reason: Seq<char>, headers: Map<Seq<char>, Seq<char>> },
    HttpBody { direction: Direction, length: usize, content_type: Option<Seq<char>> },
    TlsClientHello {
        sni: Option<Seq<char>>,
        alpn: Seq<Seq<char>>,
        tls_version: Seq<char>,
        cipher_suites: Seq<Seq<char>>,
    },
    TlsCertificate {
        subject: Option<Seq<char>>,
        issuer: Option<Seq<char>>,
        serial: Option<Seq<char>>,
        not_after: Option<Seq<char>>,
    },
    Tunnel { authority: Seq<char>, intercepted: bool },
    Error { message: Seq<char> },
}

/// The model of an [`EventDraft`].
#[verifier::ext_equal]
pub struct EventDraftView {
    pub connection_id: Seq<char>,
    pub direction: Direction,
    pub source: EndpointView,
    pub destination: EndpointView,
    pub kind: EventKindView,
    pub attributes: Map<Seq<char>, bool>,
}

/// The model of a [`TrafficEvent`].
#[verifier::ext_equal]
pub struct TrafficEventView {
    pub id: Seq<char>,
    pub timestamp_ms: u128,
    pub connection_id: Seq<char>,
    pub direction: Direction,
    pub source: EndpointView,
    pub destination: EndpointView,
    pub kind: EventKindView,
    pub attributes: Map<Seq<char>, bool>,
}

/// The model of a [`TrafficFilter`].
#[verifier::ext_equal]
pub struct TrafficFilterView {
    pub interfaces: Seq<Seq<char>>,
    pub protocols: Seq<Seq<char>>,
    pub ips: Seq<IpAddr>,
    pub hostnames: Seq<Seq<char>>,
    pub ports: Seq<u16>,
    pub process: Option<Seq<char>>,
}

impl View for Endpoint {
    type V = EndpointView;

    open spec fn view(&self) -> EndpointView {
        EndpointView { host: self.host@, port: self.port }
    }
}

impl View for RawPacketReference {
    type V = RawPacketReferenceView;

    open spec fn view(&self) -> RawPacketReferenceView {
        RawPacketReferenceView {
            packet_id: self.packet_id@,
            file: self.file@,
            offset: self.offset,
        }
    }
}

impl View for TcpOption {
    type V = TcpOptionView;

    open spec fn view(&self) -> TcpOptionView {
        TcpOptionView {
            kind: self.kind@,
            length: self.length,
            value_hex: text::opt_text(self.value_hex),
        }
    }
}

/// The models of a sequence of options.
pub open spec fn option_views(options: Seq<TcpOption>) -> Seq<TcpOptionView> {
    Seq::new(options.len(), |i: int| options[i]@)
}

/// The model of a reference that may be absent.
pub open spec fn raw_view(raw: Option<RawPacketReference>) -> Option<RawPacketReferenceView> {
    match raw {
        Some(reference) => Some(reference@),
        None => None,
    }
}

impl View for EventKind {
    type V = EventKindView;

    open spec fn view(&self) -> EventKindView {
        match *self {
            EventKind::ConnectionOpened { transport } => EventKindView::ConnectionOpened {
                transport: transport@,
            },
            EventKind::ConnectionClosed { reason } => EventKindView::ConnectionClosed {
                reason: text::opt_text(reason),
            },
            EventKind::Packet {
                interface,
                protocol,
                length,
                captured_length,
                wire_length,
                payload_length,
                ip_version,
                ttl_or_hop_limit,
                fragmentation,
                tcp_flags,
                sequence_number,
                acknowledgement_number,
                window_size,
                tcp_options,
                udp_length,
                icmp_type,
                icmp_code,
                raw_packet,
            } => EventKindView::Packet {
                interface: interface@,
                protocol: protocol@,
                length,
                captured_length,
                wire_length,
                payload_length,
                ip_version,
                ttl_or_hop_limit,
                fragmentation,
                tcp_flags: match tcp_flags {
                    Some(flags) => Some(text::texts(flags@)),
                    None => None,
                },
                sequence_number,
                acknowledgement_number,
                window_size,
                tcp_options: match tcp_options {
                    Some(options) => Some(option_views(options@)),
                    None => None,
                },
                udp_length,
                icmp_type,
                icmp_code,
                raw_packet: raw_view(raw_packet),
            },
            EventKind::Dns {
                query,
                record_type,
                response_code,
                transaction_id,
                is_response,
                answers,
                cname_chain,
                latency_ms,
            } => EventKindView::Dns {
                query: text::opt_text(query),
                record_type,
                response_code,
                transaction_id,
                is_response,
                answers: text::texts(answers@),
                cname_chain: text::texts(cname_chain@),
                latency_ms,
            },
            EventKind::HttpRequest { method, target, version, headers } =>
            EventKindView::HttpRequest {
                method: method@,
                target: target@,
                version: version@,
                headers: headers@,
            },
            EventKind::HttpResponse { status, reason, headers } => EventKindView::HttpResponse {
                status,
                reason: reason@,
                headers: headers@,
            },
            EventKind::HttpBody { direction, length, content_type } => EventKindView::HttpBody {
                direction,
                length,
                content_type: text::opt_text(content_type),
            },
            EventKind::TlsClientHello { sni, alpn, tls_version, cipher_suites } =>
            EventKindView::TlsClientHello {
                sni: text::opt_text(sni),
                alpn: text::texts(alpn@),
                tls_version: tls_version@,
                cipher_suites: text::texts(cipher_suites@),
            },
            EventKind::TlsCertificate { subject, issuer, serial, not_after } =>
            EventKindView::TlsCertificate {
                subject: text::opt_text(subject),
                issuer: text::opt_text(issuer),
                serial: text::opt_text(serial),
                not_after: text::opt_text(not_after),
            },
            EventKind::Tunnel { authority, intercepted } => EventKindView::Tunnel {
                authority: authority@,
                intercepted,
            },
            EventKind::Error { message } => EventKindView::Error { message: message@ },
        }
    }
}

impl View for EventDraft {
    type V = EventDraftView;

    open spec fn view(&self) -> EventDraftView {
        EventDraftView {
            connection_id: self.connection_id@,
            direction: self.direction,
            source: self.source@,
            destination: self.destination@,
            kind: self.kind@,
            attributes: self.attributes@,
        }
    }
}

/// The models of a sequence of drafts.
pub open spec fn draft_views(drafts: Seq<EventDraft>) -> Seq<EventDraftView> {
    Seq::new(drafts.len(), |i: int| drafts[i]@)
}

impl View for TrafficEvent {
    type V = TrafficEventView;

    open spec fn view(&self) -> TrafficEventView {
        TrafficEventView {
            id: self.id@,
            timestamp_ms: self.timestamp_ms,
            connection_id: self.connection_id@,
            direction: self.direction,
            source: self.source@,
            destination: self.destination@,
            kind: self.kind@,
            attributes: self.attributes@,
        }
    }
}

impl View for TrafficFilter {
    type V = TrafficFilterView;

    open spec fn view(&self) -> TrafficFilterView {
        TrafficFilterView {
            interfaces: text::texts(self.interfaces@),
            protocols: text::texts(self.protocols@),
            ips: self.ips@,
            hostnames: text::texts(self.hostnames@),
            ports: self.ports@,
            process: text::opt_text(self.process),
        }
    }
}

// ---------------------------------------------------------------------------------------------
// Making events
// ---------------------------------------------------------------------------------------------

impl Clone for Endpoint {
    fn clone(&self) -> (r: Self)
        ensures
            r@ == self@,
    {
        Endpoint { host: self.host.clone(), port: self.port }
    }
}

impl Endpoint {
    /// The endpoint with the given host and port.
    pub fn new(host: &str, port: u16) -> (r: Self)
        ensures
            r@ == (EndpointView { host: host@, port }),
    {
        Endpoint { host: host.to_owned(), port }
    }
}

/// The identity of an event: its connection, its time in milliseconds and its number.
pub open spec fn event_id(connection_id: Seq<char>, timestamp_ms: u128, sequence: u64) -> Seq<
    char,
> {
    connection_id + "-"@ + text::decimal(timestamp_ms as nat) + "-"@ + text::decimal(
        sequence as nat,
    )
}

/// An event made of a draft, a time and a number.
pub open spec fn stamped(
    draft: EventDraftView,
    timestamp_ms: u128,
    sequence: u64,
) -> TrafficEventView {
    TrafficEventView {
        id: event_id(draft.connection_id, timestamp_ms, sequence),
        timestamp_ms,
        connection_id: draft.connection_id,
        direction: draft.direction,
        source: draft.source,
        destination: draft.destination,
        kind: draft.kind,
        attributes: draft.attributes,
    }
}

/// A draft without attributes.
pub open spec fn plain_draft(
    connection_id: Seq<char>,
    direction: Direction,
    source: EndpointView,
    destination: EndpointView,
    kind: EventKindView,
) -> EventDraftView {
    EventDraftView {
        connection_id,
        direction,
        source,
        destination,
        kind,
        attributes: Map::empty(),
    }
}

impl TrafficEvent {
    /// An event without attributes, stamped with a time in milliseconds and a number.
    pub fn new(
        connection_id: ConnectionId,
        direction: Direction,
        source: Endpoint,
        destination: Endpoint,
        kind: EventKind,
        timestamp_ms: u128,
        sequence: u64,
    ) -> (r: Self)
        ensures
            r@ == stamped(
                plain_draft(connection_id@, direction, source@, destination@, kind@),
                timestamp_ms,
                sequence,
            ),
    {
        let mut id = connection_id.clone();
        id.append("-");
        text::push_decimal(&mut id, timestamp_ms);
        id.append("-");
        text::push_decimal(&mut id, sequence as u128);
        TrafficEvent {
            id,
            timestamp_ms,
            connection_id,
            direction,
            source,
            destination,
            kind,
            attributes: TextMap::new(),
        }
    }
}

impl EventDraft {
    /// A draft without attributes.
    pub fn new(
        connection_id: ConnectionId,
        direction: Direction,
        source: Endpoint,
        destination: Endpoint,
        kind: EventKind,
    ) -> (r: Self)
        ensures
            r@ == plain_draft(connection_id@, direction, source@, destination@, kind@),
    {
        EventDraft {
            connection_id,
            direction,
            source,
            destination,
            kind,
            attributes: TextMap::new(),
        }
    }

    /// Stamps a draft with a time in milliseconds and a number.
    pub fn stamp(self, timestamp_ms: u128, sequence: u64) -> (r: TrafficEvent)
        ensures
            r@ == stamped(self@, timestamp_ms, sequence),
    {
        let mut event = TrafficEvent::new(
            self.connection_id,
            self.direction,
            self.source,
            self.destination,
            self.kind,
            timestamp_ms,
            sequence,
        );
        event.attributes = self.attributes;
        event
    }
}

// ---------------------------------------------------------------------------------------------
// Filtering
// ---------------------------------------------------------------------------------------------

/// A host is written as one of the listed addresses.
pub open spec fn host_listed(ips: Seq<IpAddr>, host: Seq<char>) -> bool {
    match addr::ip_value(host) {
        Some(ip) => ips.contains(ip),
        None => false,
    }
}

/// A name is among the listed ones, without regard to ASCII case.
pub open spec fn name_listed(names: Seq<Seq<char>>, name: Seq<char>) -> bool {
    exists|i: int| 0 <= i < names.len() && text::lower(#[trigger] names[i]) == text::lower(name)
}

impl TrafficFilterView {
    /// A packet between two endpoints on an interface is of interest.
    pub open spec fn allows_packet(
        self,
        interface: Seq<char>,
        source: EndpointView,
        destination: EndpointView,
    ) -> bool {
        &&& self.interfaces.len() == 0 || self.interfaces.contains(interface)
        &&& self.ports.len() == 0 || self.ports.contains(source.port) || self.ports.contains(
            destination.port,
        )
        &&& self.ips.len() == 0 || host_listed(self.ips, source.host) || host_listed(
            self.ips,
            destination.host,
        )
    }

    /// A host name is of interest.
    pub open spec fn allows_hostname(self, hostname: Seq<char>) -> bool {
        self.hostnames.len() == 0 || name_listed(self.hostnames, hostname)
    }

    /// An endpoint is of interest.
    pub open spec fn allows_endpoint(self, endpoint: EndpointView) -> bool {
        &&& self.ports.len() == 0 || self.ports.contains(endpoint.port)
        &&& self.allows_hostname(endpoint.host)
        &&& self.ips.len() == 0 || host_listed(self.ips, endpoint.host)
    }
}

/// Looks for a string.
fn contains_string(list: &Vec<String>, s: &str) -> (r: bool)
    ensures
        r == text::texts(list@).contains(s@),
{
    let mut i: usize = 0;
    while i < list.len()
        invariant
            i <= list@.len(),
            forall|k: int| 0 <= k < i ==> text::texts(list@)[k] != s@,
        decreases list@.len() - i,
    {
        if text::text_eq(list[i].as_str(), s) {
            assert(text::texts(list@)[i as int] == s@);
            return true;
        }
        i += 1;
    }
    false
}

/// Looks for a port.
fn contains_port(list: &Vec<u16>, port: u16) -> (r: bool)
    ensures
        r == list@.contains(port),
{
    let mut i: usize = 0;
    while i < list.len()
        invariant
            i <= list@.len(),
            forall|k: int| 0 <= k < i ==> list@[k] != port,
        decreases list@.len() - i,
    {
        if list[i] == port {
            return true;
        }
        i += 1;
    }
    false
}

/// Looks for the address that a host is written as.
fn contains_host(list: &Vec<IpAddr>, host: &str) -> (r: bool)
    ensures
        r == host_listed(list@, host@),
{
    match IpAddr::parse(host) {
        None => false,
        Some(ip) => {
            let mut i: usize = 0;
            while i < list.len()
                invariant
                    i <= list@.len(),
                    addr::ip_value(host@) == Some(ip),
                    forall|k: int| 0 <= k < i ==> list@[k] != ip,
                decreases list@.len() - i,
            {
                if list[i] == ip {
                    return true;
                }
                i += 1;
            }
            false
        },
    }
}

impl Default for TrafficFilter {
    /// The filter that admits everything.
    fn default() -> (r: Self)
        ensures
            r@ == (TrafficFilterView {
                interfaces: Seq::empty(),
                protocols: Seq::empty(),
                ips: Seq::empty(),
                hostnames: Seq::empty(),
                ports: Seq::empty(),
                process: None,
            }),
    {
        let r = TrafficFilter {
            interfaces: Vec::new(),
            protocols: Vec::new(),
            ips: Vec::new(),
            hostnames: Vec::new(),
            ports: Vec::new(),
            process: None,
        };
        assert(r@.interfaces =~= Seq::empty());
        assert(r@.protocols =~= Seq::empty());
        assert(r@.hostnames =~= Seq::empty());
        r
    }
}

impl TrafficFilter {
    /// Decides whether a packet is of interest.
    pub fn matches_packet(
        &self,
        interface: &str,
        source: &Endpoint,
        destination: &Endpoint,
    ) -> (r: bool)
        ensures
            r == self@.allows_packet(interface@, source@, destination@),
    {
        if self.interfaces.len() > 0 && !contains_string(&self.interfaces, interface) {
            return false;
        }
        if self.ports.len() > 0 && !contains_port(&self.ports, source.port) && !contains_port(
            &self.ports,
            destination.port,
        ) {
            return false;
        }
        if self.ips.len() > 0 && !contains_host(&self.ips, source.host.as_str()) && !contains_host(
            &self.ips,
            destination.host.as_str(),
        ) {
            return false;
        }
        true
    }

    /// Applies hostname filtering only after a hostname was learned from DNS or TLS metadata.
    pub fn matches_hostname(&self, hostname: &str) -> (r: bool)
        ensures
            r == self@.allows_hostname(hostname@),
    {
        if self.hostnames.len() == 0 {
            return true;
        }
        let mut i: usize = 0;
        while i < self.hostnames.len()
            invariant
                i <= self.hostnames@.len(),
                forall|k: int|
                    0 <= k < i ==> text::lower(#[trigger] self@.hostnames[k]) != text::lower(
                        hostname@,
                    ),
            decreases self.hostnames@.len() - i,
        {
            assert(self@.hostnames[i as int] == self.hostnames@[i as int]@);
            if text::eq_ignore_case(self.hostnames[i].as_str(), hostname) {
                return true;
            }
            i += 1;
        }
        false
    }

    /// Decides whether an endpoint is of interest.
    pub fn matches_endpoint(&self, endpoint: &Endpoint) -> (r: bool)
        ensures
            r == self@.allows_endpoint(endpoint@),
    {
        (self.ports.len() == 0 || contains_port(&self.ports, endpoint.port))
            && self.matches_hostname(endpoint.host.as_str()) && (self.ips.len() == 0
            || contains_host(&self.ips, endpoint.host.as_str()))
    }
}

// ---------------------------------------------------------------------------------------------
// Laws
// ---------------------------------------------------------------------------------------------

/// An address is recognized by its text: a filter lists a written address exactly where it lists
/// the address itself.
pub proof fn written_addresses_are_recognized(ips: Seq<IpAddr>, ip: IpAddr)
    ensures
        host_listed(ips, ip.spec_text()) == ips.contains(ip),
{
    addr::addresses_read_back(ip);
}

/// A filter treats the two directions of a connection alike.
pub proof fn filters_ignore_direction(
    filter: TrafficFilterView,
    interface: Seq<char>,
    a: EndpointView,
    b: EndpointView,
)
    ensures
        filter.allows_packet(interface, a, b) == filter.allows_packet(interface, b, a),
{
}

/// Host names are compared without regard to ASCII case.
pub proof fn hostnames_ignore_case(filter: TrafficFilterView, a: Seq<char>, b: Seq<char>)
    requires
        text::lower(a) == text::lower(b),
    ensures
        filter.allows_hostname(a) == filter.allows_hostname(b),
{
}

/// Two events of one connection have different identities where their numbers differ, whatever
/// their times.
pub proof fn event_ids_differ(
    connection_id: Seq<char>,
    time1: u128,
    sequence1: u64,
    time2: u128,
    sequence2: u64,
)
    requires
        sequence1 != sequence2,
    ensures
        event_id(connection_id, time1, sequence1) != event_id(connection_id, time2, sequence2),
{
    let a = event_id(connection_id, time1, sequence1);
    let b = event_id(connection_id, time2, sequence2);
    let n1 = text::decimal(sequence1 as nat);
    let n2 = text::decimal(sequence2 as nat);
    text::decimals_read_back(sequence1 as nat);
    text::decimals_read_back(sequence2 as nat);
    reveal_strlit("-");
    if a == b {
        if n1.len() == n2.len() {
            assert(n1 =~= a.skip(a.len() - n1.len()));
            assert(n2 =~= b.skip(b.len() - n2.len()));
        } else if n1.len() < n2.len() {
            let k = a.len() - n1.len() - 1;
            assert(a[k] == '-');
            assert(b[k] == n2[n2.len() - n1.len() - 1]);
        } else {
            let k = a.len() - n2.len() - 1;
            assert(b[k] == '-');
            assert(a[k] == n1[n1.len() - n2.len() - 1]);
        }
    }
}

} // verus!
