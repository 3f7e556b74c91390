//! Requests and responses on their way through the proxy.
use crate::capture::report;
use crate::events;
use crate::events::{Direction, Endpoint, EventDraft, EventKind};
use crate::outside;
use crate::parsers::certificate;
use crate::parsers::http1;
use crate::parsers::http1::{RequestHead, ResponseHead};
use crate::text;
use crate::textmap;
use crate::textmap::Headers;
use crate::wire;
use vstd::prelude::*;
use vstd::string::StringExecFns;

verus! {

/// Why a connection cannot be served.
#[derive(Debug, Clone, Copy, PartialEq, Eq, Structural)]
pub enum ProxyError {
    ClientSentResponse,
    ExpectedRequest,
    UpstreamSentRequest,
    NoHost,
    InvalidPort,
    HeaderTooLong,
    LineTooLong,
    LineNotText,
    InvalidChunkSize,
    UnexpectedReply,
    MissingAuthority,
}

impl ProxyError {
    /// The error in words.
    pub open spec fn spec_message(self) -> Seq<char> {
        match self {
            ProxyError::ClientSentResponse => "client sent HTTP response"@,
            ProxyError::ExpectedRequest => "expected request"@,
            ProxyError::UpstreamSentRequest => "upstream sent a request"@,
            ProxyError::NoHost => "HTTP request has no Host header"@,
            ProxyError::InvalidPort => "invalid port"@,
            ProxyError::HeaderTooLong => "HTTP header exceeds 64 KiB"@,
            ProxyError::LineTooLong => "line too long"@,
            ProxyError::LineNotText => "chunk size line is not UTF-8"@,
            ProxyError::InvalidChunkSize => "invalid chunk size"@,
            ProxyError::UnexpectedReply => "unexpected reply"@,
            ProxyError::MissingAuthority =>
            "--mitm requires --ca-dir containing netscope-ca.pem and netscope-ca-key.pem"@,
        }
    }

    /// Says the error in words.
    pub fn message(self) -> (r: String)
        ensures
            r@ == self.spec_message(),
    {
        let words: &str = match self {
            ProxyError::ClientSentResponse => "client sent HTTP response",
            ProxyError::ExpectedRequest => "expected request",
            ProxyError::UpstreamSentRequest => "upstream sent a request",
            ProxyError::NoHost => "HTTP request has no Host header",
            ProxyError::InvalidPort => "invalid port",
            ProxyError::HeaderTooLong => "HTTP header exceeds 64 KiB",
            ProxyError::LineTooLong => "line too long",
            ProxyError::LineNotText => "chunk size line is not UTF-8",
            ProxyError::InvalidChunkSize => "invalid chunk size",
            ProxyError::UnexpectedReply => "unexpected reply",
            ProxyError::MissingAuthority =>
            "--mitm requires --ca-dir containing netscope-ca.pem and netscope-ca-key.pem",
        };
        words.to_owned()
    }
}

// ---------------------------------------------------------------------------------------------
// Destinations
// ---------------------------------------------------------------------------------------------

/// The host and the port that an authority names: the port is what follows the last colon, unless
/// a closing bracket stands before it.
pub open spec fn authority_of(value: Seq<char>, default: u16) -> Result<
    (Seq<char>, u16),
    ProxyError,
> {
    let v = text::trim(value);
    match text::last_index(v, ':') {
        Some(i) if !v.take(i).contains(']') => match text::bounded_value(v.skip(i + 1), 10, 65535) {
            Some(port) => Ok((text::trim_brackets(v.take(i)), port as u16)),
            None => Err(ProxyError::InvalidPort),
        },
        _ => Ok((text::trim_brackets(v), default)),
    }
}

/// The scheme of plain requests to a proxy.
pub open spec fn scheme() -> Seq<char> {
    "http://"@
}

/// Where a plain request goes: to the authority in its target, or else to its host.
pub open spec fn destination_of(request: http1::RequestHeadView) -> Result<
    (Seq<char>, u16),
    ProxyError,
> {
    if text::starts_with(request.target, scheme()) {
        authority_of(text::before_first(request.target.skip(scheme().len() as int), '/'), 80)
    } else if request.headers.contains_key("host"@) {
        authority_of(request.headers["host"@], 80)
    } else {
        Err(ProxyError::NoHost)
    }
}

/// The target as the destination itself expects it: without scheme and authority.
pub open spec fn origin_of(target: Seq<char>) -> Seq<char> {
    if text::starts_with(target, scheme()) {
        let rest = target.skip(scheme().len() as int);
        match text::first_index(rest, '/') {
            Some(i) => rest.skip(i),
            None => "/"@,
        }
    } else {
        target
    }
}

/// The model of a host and a port, or an error.
pub open spec fn host_port_model(r: Result<(String, u16), ProxyError>) -> Result<
    (Seq<char>, u16),
    ProxyError,
> {
    match r {
        Ok((host, port)) => Ok((host@, port)),
        Err(e) => Err(e),
    }
}

/// Reads an authority.
fn read_authority(value: &[char], default: u16) -> (r: Result<(String, u16), ProxyError>)
    ensures
        host_port_model(r) == authority_of(value@, default),
{
    let v = text::trim_chars(value);
    let n: usize = v.len();
    match text::rfind_char(v, ':') {
        Some(i) => {
            let host = vstd::slice::slice_subrange(v, 0, i);
            let port = vstd::slice::slice_subrange(v, i + 1, n);
            assert(host@ =~= v@.take(i as int));
            assert(port@ =~= v@.skip(i + 1));
            let bracket = text::find_char(host, ']');
            proof {
                text::lemma_first_index(host@, ']');
            }
            match bracket {
                None => {
                    return match text::parse_unsigned(port, 10, 65535) {
                        Some(number) => Ok(
                            (text::text_of(text::trim_bracket_chars(host)), number as u16),
                        ),
                        None => Err(ProxyError::InvalidPort),
                    };
                },
                Some(k) => {
                    assert(host@[k as int] == ']');
                },
            }
        },
        None => {},
    }
    Ok((text::text_of(text::trim_bracket_chars(v)), default))
}

/// Reads the host and the port that an authority names.
pub fn authority(value: &str, default: u16) -> (r: Result<(String, u16), ProxyError>)
    ensures
        host_port_model(r) == authority_of(value@, default),
{
    read_authority(&text::chars_of(value), default)
}

/// Finds out where a plain request goes.
pub fn request_destination(request: &RequestHead) -> (r: Result<(String, u16), ProxyError>)
    ensures
        host_port_model(r) == destination_of(request@),
{
    let target = text::chars_of(request.target.as_str());
    let prefix = text::chars_of("http://");
    if text::chars_start_with(&target, &prefix) {
        let rest = vstd::slice::slice_subrange(&target, prefix.len(), target.len());
        assert(rest@ =~= target@.skip(scheme().len() as int));
        match text::find_char(rest, '/') {
            Some(i) => {
                let name = vstd::slice::slice_subrange(rest, 0, i);
                assert(name@ =~= rest@.take(i as int));
                read_authority(name, 80)
            },
            None => read_authority(rest, 80),
        }
    } else {
        match request.headers.get("host") {
            Some(host) => authority(host.as_str(), 80),
            None => Err(ProxyError::NoHost),
        }
    }
}

/// Turns a target into the form that the destination itself expects.
pub fn origin_target(target: &str) -> (r: String)
    ensures
        r@ == origin_of(target@),
{
    let chars = text::chars_of(target);
    let prefix = text::chars_of("http://");
    if text::chars_start_with(&chars, &prefix) {
        let rest = vstd::slice::slice_subrange(&chars, prefix.len(), chars.len());
        assert(rest@ =~= chars@.skip(scheme().len() as int));
        match text::find_char(rest, '/') {
            Some(i) => {
                let n: usize = rest.len();
                let path = vstd::slice::slice_subrange(rest, i, n);
                assert(path@ =~= rest@.skip(i as int));
                text::text_of(path)
            },
            None => "/".to_owned(),
        }
    } else {
        target.to_owned()
    }
}

// ---------------------------------------------------------------------------------------------
// Headers
// ---------------------------------------------------------------------------------------------

/// Headers without those of the given names.
pub open spec fn without_names(
    headers: http1::HeadersView,
    names: Seq<Seq<char>>,
) -> http1::HeadersView
    decreases names.len(),
{
    if names.len() == 0 {
        headers
    } else {
        without_names(headers, names.drop_last()).remove(text::lower(names.last()))
    }
}

/// Headers with the given ones added or replaced, in order.
pub open spec fn with_pairs(
    headers: http1::HeadersView,
    pairs: Seq<(Seq<char>, Seq<char>)>,
) -> http1::HeadersView
    decreases pairs.len(),
{
    if pairs.len() == 0 {
        headers
    } else {
        with_pairs(headers, pairs.drop_last()).insert(
            text::lower(pairs.last().0),
            pairs.last().1,
        )
    }
}

/// Headers after a modification: first the removals, then the additions in key order, both
/// without regard to the case of the names.
pub open spec fn modified(
    headers: http1::HeadersView,
    set: http1::HeadersView,
    remove: Seq<Seq<char>>,
) -> http1::HeadersView {
    with_pairs(without_names(headers, remove), textmap::sorted_pairs(set))
}

/// Headers for a body of a fixed length.
pub open spec fn fixed_length_headers(
    headers: http1::HeadersView,
    length: nat,
) -> http1::HeadersView {
    headers.remove("transfer-encoding"@).insert("content-length"@, text::decimal(length))
}

/// Applies a modification to headers.
pub fn modify_headers(headers: &mut Headers, set: Headers, remove: Vec<String>)
    ensures
        final(headers)@ == modified(old(headers)@, set@, text::texts(remove@)),
{
    let ghost start = headers@;
    let ghost names = text::texts(remove@);
    let mut i: usize = 0;
    assert(names.take(0) =~= Seq::empty());
    while i < remove.len()
        invariant
            i <= remove@.len(),
            names == text::texts(remove@),
            headers@ == without_names(start, names.take(i as int)),
        decreases remove@.len() - i,
    {
        assert(names.take(i + 1).drop_last() =~= names.take(i as int));
        assert(names.take(i + 1).last() == remove@[i as int]@);
        let name = text::lower_text(remove[i].as_str());
        headers.remove(name.as_str());
        i += 1;
    }
    assert(names.take(i as int) =~= names);
    let ghost middle = headers@;
    let ghost pairs = set.pairs();
    let n: usize = set.len();
    let mut k: usize = 0;
    assert(pairs.take(0) =~= Seq::empty());
    while k < n
        invariant
            k <= n,
            n == pairs.len(),
            pairs == set.pairs(),
            headers@ == with_pairs(middle, pairs.take(k as int)),
        decreases n - k,
    {
        assert(pairs.take(k + 1).drop_last() =~= pairs.take(k as int));
        assert(pairs.take(k + 1).last() == pairs[k as int]);
        headers.insert(text::lower_text(set.key_at(k)), set.value_at(k).clone());
        k += 1;
    }
    assert(pairs.take(k as int) =~= pairs);
}

/// Applies a modification to a request.
pub fn modify_request(request: RequestHead, set: Headers, remove: Vec<String>) -> (r: RequestHead)
    ensures
        r@ == (http1::RequestHeadView {
            headers: modified(request@.headers, set@, text::texts(remove@)),
            ..request@
        }),
{
    let mut r = request;
    modify_headers(&mut r.headers, set, remove);
    r
}

/// Applies a modification to a response.
pub fn modify_response(response: ResponseHead, set: Headers, remove: Vec<String>) -> (r:
    ResponseHead)
    ensures
        r@ == (http1::ResponseHeadView {
            headers: modified(response@.headers, set@, text::texts(remove@)),
            ..response@
        }),
{
    let mut r = response;
    modify_headers(&mut r.headers, set, remove);
    r
}

/// Sets the headers for a body of a fixed length.
pub fn set_fixed_body_headers(headers: &mut Headers, length: usize)
    ensures
        final(headers)@ == fixed_length_headers(old(headers)@, length as nat),
{
    headers.remove("transfer-encoding");
    headers.insert("content-length".to_owned(), text::decimal_text(length as u128));
}

/// The value of a header says that the connection closes.
pub open spec fn says_close(headers: http1::HeadersView) -> bool {
    headers.contains_key("connection"@) && text::lower(headers["connection"@]) == "close"@
}

/// Decides whether headers say that the connection closes.
pub fn closes(headers: &Headers) -> (r: bool)
    ensures
        r == says_close(headers@),
{
    match headers.get("connection") {
        Some(value) => {
            let word = text::lower_text(value.as_str());
            text::text_eq(word.as_str(), "close")
        },
        None => false,
    }
}

/// The media type is JSON.
pub open spec fn is_json(content_type: Seq<char>) -> bool {
    text::starts_with(text::lower(content_type), "application/json"@) || text::contains_text(
        text::lower(content_type),
        "+json"@,
    )
}

/// The length of a body that is shown to hooks: of an uncompressed JSON body with a stated length
/// that is not too large, and without chunks.
pub open spec fn shown_length(headers: http1::HeadersView, maximum: usize) -> Option<nat> {
    if headers.contains_key("content-type"@) && is_json(headers["content-type"@])
        && !headers.contains_key("content-encoding"@) && !http1::chunked(headers) {
        match http1::length_of(headers) {
            Some(n) => if n <= maximum {
                Some(n)
            } else {
                None
            },
            None => None,
        }
    } else {
        None
    }
}

/// The model of a length that may be absent.
pub open spec fn length_model(length: Option<usize>) -> Option<nat> {
    match length {
        Some(n) => Some(n as nat),
        None => None,
    }
}

/// Decides whether a body is shown to hooks, and gives its length.
pub fn json_body_length(headers: &Headers, maximum: usize) -> (r: Option<usize>)
    ensures
        length_model(r) == shown_length(headers@, maximum),
{
    let content_type = match headers.get("content-type") {
        Some(value) => text::lower_chars(value.as_str()),
        None => {
            return None;
        },
    };
    let json = text::chars_start_with(&content_type, &text::chars_of("application/json"))
        || text::chars_contain(&content_type, &text::chars_of("+json"));
    if !json || headers.contains_key("content-encoding") || http1::is_chunked(headers) {
        return None;
    }
    match http1::content_length(headers) {
        Some(length) => if length <= maximum {
            Some(length)
        } else {
            None
        },
        None => None,
    }
}

// ---------------------------------------------------------------------------------------------
// Writing
// ---------------------------------------------------------------------------------------------

/// Header lines in order.
pub open spec fn header_text(pairs: Seq<(Seq<char>, Seq<char>)>) -> Seq<char>
    decreases pairs.len(),
{
    if pairs.len() == 0 {
        Seq::empty()
    } else {
        header_text(pairs.drop_last()) + pairs.last().0 + ": "@ + pairs.last().1 + "\r\n"@
    }
}

/// Headers as they are written: in key order, with an empty line at the end.
pub open spec fn headers_text(headers: http1::HeadersView) -> Seq<char> {
    header_text(textmap::sorted_pairs(headers)) + "\r\n"@
}

/// The head of a request as it is written.
pub open spec fn request_text(request: http1::RequestHeadView) -> Seq<char> {
    request.method + " "@ + origin_of(request.target) + " "@ + request.version + "\r\n"@
        + headers_text(request.headers)
}

/// The head of a response as it is written.
pub open spec fn response_text(response: http1::ResponseHeadView) -> Seq<char> {
    response.version + " "@ + text::decimal(response.status as nat) + " "@ + response.reason
        + "\r\n"@ + headers_text(response.headers)
}

/// The headers of a response that the proxy makes up.
pub open spec fn replacement_headers(
    headers: http1::HeadersView,
    length: nat,
) -> http1::HeadersView {
    let stated = headers.insert("content-length"@, text::decimal(length));
    if stated.contains_key("content-type"@) {
        stated
    } else {
        stated.insert("content-type"@, "text/plain; charset=utf-8"@)
    }
}

/// The head of a response that the proxy makes up.
pub open spec fn replacement_head(
    status: u16,
    headers: http1::HeadersView,
    length: nat,
) -> http1::ResponseHeadView {
    http1::ResponseHeadView {
        status,
        reason: "Intercepted"@,
        version: "HTTP/1.1"@,
        headers: replacement_headers(headers, length),
    }
}

/// A response that the proxy makes up.
pub open spec fn replacement(status: u16, headers: http1::HeadersView, body: Seq<u8>) -> Seq<u8> {
    vstd::utf8::encode_utf8(response_text(replacement_head(status, headers, body.len()))) + body
}

/// Appends headers as they are written.
fn push_headers(out: &mut String, headers: &Headers)
    ensures
        final(out)@ == old(out)@ + headers_text(headers@),
{
    let ghost start = out@;
    let ghost pairs = headers.pairs();
    let n: usize = headers.len();
    let mut i: usize = 0;
    assert(pairs.take(0) =~= Seq::empty());
    while i < n
        invariant
            i <= n,
            n == pairs.len(),
            pairs == headers.pairs(),
            out@ =~= start + header_text(pairs.take(i as int)),
        decreases n - i,
    {
        assert(pairs.take(i + 1).drop_last() =~= pairs.take(i as int));
        out.append(headers.key_at(i));
        out.append(": ");
        out.append(headers.value_at(i).as_str());
        out.append("\r\n");
        i += 1;
    }
    assert(pairs.take(i as int) =~= pairs);
    out.append("\r\n");
    assert(out@ =~= start + headers_text(headers@));
}

/// Writes the head of a request.
pub fn write_request_head(request: &RequestHead) -> (r: Vec<u8>)
    ensures
        r@ == vstd::utf8::encode_utf8(request_text(request@)),
{
    let mut out = request.method.clone();
    out.append(" ");
    let target = origin_target(request.target.as_str());
    out.append(target.as_str());
    out.append(" ");
    out.append(request.version.as_str());
    out.append("\r\n");
    push_headers(&mut out, &request.headers);
    vstd::slice::slice_to_vec(out.as_str().as_bytes())
}

/// Writes the head of a response.
pub fn write_response_head(response: &ResponseHead) -> (r: Vec<u8>)
    ensures
        r@ == vstd::utf8::encode_utf8(response_text(response@)),
{
    let mut out = response.version.clone();
    out.append(" ");
    text::push_decimal(&mut out, response.status as u128);
    out.append(" ");
    out.append(response.reason.as_str());
    out.append("\r\n");
    push_headers(&mut out, &response.headers);
    vstd::slice::slice_to_vec(out.as_str().as_bytes())
}

/// Writes a response that the proxy makes up.
pub fn write_replacement(status: u16, headers: Headers, body: &[u8]) -> (r: Vec<u8>)
    ensures
        r@ == replacement(status, headers@, body@),
{
    let mut all = headers;
    let length: usize = body.len();
    all.insert("content-length".to_owned(), text::decimal_text(length as u128));
    if !all.contains_key("content-type") {
        all.insert("content-type".to_owned(), "text/plain; charset=utf-8".to_owned());
    }
    let head = ResponseHead {
        status,
        reason: "Intercepted".to_owned(),
        version: "HTTP/1.1".to_owned(),
        headers: all,
    };
    let mut out = write_response_head(&head);
    wire::push_bytes(&mut out, body);
    out
}

// ---------------------------------------------------------------------------------------------
// Events
// ---------------------------------------------------------------------------------------------

/// The identity of a proxied connection.
pub open spec fn proxied_id(source: events::EndpointView, dest: events::EndpointView) -> Seq<char> {
    source.host + ":"@ + text::decimal(source.port as nat) + "-"@ + dest.host + ":"@
        + text::decimal(dest.port as nat)
}

/// Makes the identity of a proxied connection.
pub fn connection_id(source: &Endpoint, dest: &Endpoint) -> (r: String)
    ensures
        r@ == proxied_id(source@, dest@),
{
    let mut id = source.host.clone();
    id.append(":");
    text::push_decimal(&mut id, source.port as u128);
    id.append("-");
    id.append(dest.host.as_str());
    id.append(":");
    text::push_decimal(&mut id, dest.port as u128);
    id
}

/// The event about a request.
pub open spec fn request_draft(
    id: Seq<char>,
    source: events::EndpointView,
    destination: events::EndpointView,
    request: http1::RequestHeadView,
) -> events::EventDraftView {
    events::plain_draft(
        id,
        Direction::ClientToServer,
        source,
        destination,
        events::EventKindView::HttpRequest {
            method: request.method,
            target: request.target,
            version: request.version,
            headers: request.headers,
        },
    )
}

/// The event about a response.
pub open spec fn response_draft(
    id: Seq<char>,
    source: events::EndpointView,
    destination: events::EndpointView,
    response: http1::ResponseHeadView,
) -> events::EventDraftView {
    events::plain_draft(
        id,
        Direction::ServerToClient,
        destination,
        source,
        events::EventKindView::HttpResponse {
            status: response.status,
            reason: response.reason,
            headers: response.headers,
        },
    )
}

/// The content type that headers state.
pub open spec fn content_type_of(headers: http1::HeadersView) -> Option<Seq<char>> {
    if headers.contains_key("content-type"@) {
        Some(headers["content-type"@])
    } else {
        None
    }
}

/// The event about a body.
pub open spec fn body_draft(
    id: Seq<char>,
    direction: Direction,
    source: events::EndpointView,
    destination: events::EndpointView,
    headers: http1::HeadersView,
    length: usize,
) -> events::EventDraftView {
    events::plain_draft(
        id,
        direction,
        source,
        destination,
        events::EventKindView::HttpBody {
            direction,
            length,
            content_type: content_type_of(headers),
        },
    )
}

/// Makes the event about a request.
pub fn request_event(
    id: &str,
    source: &Endpoint,
    destination: &Endpoint,
    request: &RequestHead,
) -> (r: EventDraft)
    ensures
        r@ == request_draft(id@, source@, destination@, request@),
{
    EventDraft::new(
        id.to_owned(),
        Direction::ClientToServer,
        source.clone(),
        destination.clone(),
        EventKind::HttpRequest {
            method: request.method.clone(),
            target: request.target.clone(),
            version: request.version.clone(),
            headers: request.headers.clone(),
        },
    )
}

/// Makes the event about a response.
pub fn response_event(
    id: &str,
    source: &Endpoint,
    destination: &Endpoint,
    response: &ResponseHead,
) -> (r: EventDraft)
    ensures
        r@ == response_draft(id@, source@, destination@, response@),
{
    EventDraft::new(
        id.to_owned(),
        Direction::ServerToClient,
        destination.clone(),
        source.clone(),
        EventKind::HttpResponse {
            status: response.status,
            reason: response.reason.clone(),
            headers: response.headers.clone(),
        },
    )
}

/// Makes the event about a body.
pub fn body_event(
    id: &str,
    direction: Direction,
    source: &Endpoint,
    destination: &Endpoint,
    headers: &Headers,
    length: usize,
) -> (r: EventDraft)
    ensures
        r@ == body_draft(id@, direction, source@, destination@, headers@, length),
{
    let content_type = match headers.get("content-type") {
        Some(value) => Some(value.clone()),
        None => None,
    };
    EventDraft::new(
        id.to_owned(),
        direction,
        source.clone(),
        destination.clone(),
        EventKind::HttpBody { direction, length, content_type },
    )
}

/// The event about the certificate of the destination, if it can be read.
pub open spec fn certificate_draft(
    id: Seq<char>,
    source: events::EndpointView,
    destination: events::EndpointView,
    summary: Result<certificate::CertificateSummaryView, Seq<char>>,
) -> Option<events::EventDraftView> {
    match summary {
        Ok(s) => Some(
            events::plain_draft(
                id,
                Direction::ServerToClient,
                destination,
                source,
                report::certificate_event_kind(s),
            ),
        ),
        Err(_) => None,
    }
}

/// The model of a draft that may be absent.
pub open spec fn opt_draft(draft: Option<EventDraft>) -> Option<events::EventDraftView> {
    match draft {
        Some(d) => Some(d@),
        None => None,
    }
}

/// Makes the event about the certificate of the destination from its summary.
pub fn certificate_event(
    id: &str,
    source: &Endpoint,
    destination: &Endpoint,
    summary: Result<certificate::CertificateSummary, String>,
) -> (r: Option<EventDraft>)
    ensures
        opt_draft(r) == certificate_draft(
            id@,
            source@,
            destination@,
            certificate::summary_model(summary),
        ),
{
    match summary {
        Ok(s) => Some(
            EventDraft::new(
                id.to_owned(),
                Direction::ServerToClient,
                destination.clone(),
                source.clone(),
                report::certificate_kind(s),
            ),
        ),
        Err(_) => None,
    }
}

/// Makes the event about the certificate of the destination.
pub fn peer_certificate_event(
    id: &str,
    source: &Endpoint,
    destination: &Endpoint,
    der: &[u8],
) -> (r: Option<EventDraft>)
    ensures
        opt_draft(r) == certificate_draft(
            id@,
            source@,
            destination@,
            certificate::summary_of(outside::x509_certificate(der@)),
        ),
{
    certificate_event(id, source, destination, certificate::parse_certificate(der))
}

/// Decides whether an error means that the peer sent no more.
pub fn is_eof(message: &str) -> (r: bool)
    ensures
        r == text::contains_text(message@, "EOF"@),
{
    text::chars_contain(&text::chars_of(message), &text::chars_of("EOF"))
}

// ---------------------------------------------------------------------------------------------
// Laws
// ---------------------------------------------------------------------------------------------

proof fn lemma_without(headers: http1::HeadersView, names: Seq<Seq<char>>, key: Seq<char>)
    ensures
        without_names(headers, names).contains_key(key) <==> headers.contains_key(key) && forall|
            i: int,
        |
            0 <= i < names.len() ==> text::lower(#[trigger] names[i]) != key,
        without_names(headers, names).contains_key(key) ==> without_names(headers, names)[key]
            == headers[key],
    decreases names.len(),
{
    if names.len() > 0 {
        let front = names.drop_last();
        lemma_without(headers, front, key);
        assert forall|i: int| 0 <= i < front.len() implies front[i] == names[i] by {}
        if without_names(headers, names).contains_key(key) {
            assert forall|i: int| 0 <= i < names.len() implies text::lower(#[trigger] names[i])
                != key by {
                if i < front.len() {
                    assert(text::lower(front[i]) != key);
                }
            }
        }
        if headers.contains_key(key) && forall|i: int|
            0 <= i < names.len() ==> text::lower(#[trigger] names[i]) != key {
            assert forall|i: int| 0 <= i < front.len() implies text::lower(#[trigger] front[i])
                != key by {
                assert(text::lower(names[i]) != key);
            }
            assert(text::lower(names[names.len() - 1]) != key);
        }
    }
}

proof fn lemma_with(
    headers: http1::HeadersView,
    pairs: Seq<(Seq<char>, Seq<char>)>,
    key: Seq<char>,
)
    ensures
        with_pairs(headers, pairs).contains_key(key) <==> headers.contains_key(key) || exists|
            i: int,
        |
            0 <= i < pairs.len() && text::lower(#[trigger] pairs[i].0) == key,
        (forall|i: int| 0 <= i < pairs.len() ==> text::lower(#[trigger] pairs[i].0) != key)
            && headers.contains_key(key) ==> with_pairs(headers, pairs)[key] == headers[key],
        forall|i: int|
            0 <= i < pairs.len() && text::lower(#[trigger] pairs[i].0) == key && (forall|j: int|
                i < j < pairs.len() ==> text::lower(#[trigger] pairs[j].0) != key)
                ==> with_pairs(headers, pairs)[key] == pairs[i].1,
    decreases pairs.len(),
{
    if pairs.len() > 0 {
        let front = pairs.drop_last();
        lemma_with(headers, front, key);
        assert forall|i: int| 0 <= i < front.len() implies front[i] == pairs[i] by {}
        if exists|i: int| 0 <= i < pairs.len() && text::lower(#[trigger] pairs[i].0) == key {
            let i = choose|i: int|
                0 <= i < pairs.len() && text::lower(#[trigger] pairs[i].0) == key;
            if i < front.len() {
                assert(text::lower(front[i].0) == key);
            }
        }
        if exists|i: int| 0 <= i < front.len() && text::lower(#[trigger] front[i].0) == key {
            let i = choose|i: int|
                0 <= i < front.len() && text::lower(#[trigger] front[i].0) == key;
            assert(text::lower(pairs[i].0) == key);
        }
        if text::lower(pairs.last().0) == key {
            assert(text::lower(pairs[pairs.len() - 1].0) == key);
        }
        if forall|i: int| 0 <= i < pairs.len() ==> text::lower(#[trigger] pairs[i].0) != key {
            assert forall|i: int| 0 <= i < front.len() implies text::lower(#[trigger] front[i].0)
                != key by {
                assert(text::lower(pairs[i].0) != key);
            }
            assert(text::lower(pairs[pairs.len() - 1].0) != key);
        }
        assert forall|i: int|
            0 <= i < pairs.len() && text::lower(#[trigger] pairs[i].0) == key && (forall|j: int|
                i < j < pairs.len() ==> text::lower(#[trigger] pairs[j].0)
                    != key) implies with_pairs(headers, pairs)[key] == pairs[i].1 by {
            if i < front.len() {
                assert(text::lower(front[i].0) == key);
                assert forall|j: int| i < j < front.len() implies text::lower(
                    #[trigger] front[j].0,
                ) != key by {
                    assert(text::lower(pairs[j].0) != key);
                }
                assert(text::lower(pairs[pairs.len() - 1].0) != key);
            }
        }
    }
}

/// A modification goes by the names of headers without regard to ASCII case. A name that is
/// removed and not set is gone; a name that is set is there, with the value that was set under it;
/// every other header stays as it is. Of several spellings of one set name the last counts, in the
/// order of the texts.
pub proof fn modifications_ignore_case(
    headers: http1::HeadersView,
    set: http1::HeadersView,
    remove: Seq<Seq<char>>,
    key: Seq<char>,
)
    requires
        set.dom().finite(),
    ensures
        ({
            let pairs = textmap::sorted_pairs(set);
            let is_set = exists|s: Seq<char>| #[trigger] set.contains_key(s) && text::lower(s)
                == key;
            let is_removed = exists|i: int|
                0 <= i < remove.len() && text::lower(#[trigger] remove[i]) == key;
            let after = modified(headers, set, remove);
            &&& is_set ==> after.contains_key(key)
            &&& forall|s: Seq<char>| #[trigger]
                set.contains_key(s) && text::lower(s) == key && (forall|other: Seq<char>| #[trigger]
                    set.contains_key(other) && other != s ==> text::lower(other) != key)
                    ==> after[key] == set[s]
            &&& forall|i: int|
                0 <= i < pairs.len() && text::lower(#[trigger] pairs[i].0) == key && (forall|
                    j: int,
                |
                    i < j < pairs.len() ==> text::lower(#[trigger] pairs[j].0) != key)
                    ==> after[key] == pairs[i].1
            &&& is_removed && !is_set ==> !after.contains_key(key)
            &&& !is_removed && !is_set ==> {
                &&& after.contains_key(key) == headers.contains_key(key)
                &&& headers.contains_key(key) ==> after[key] == headers[key]
            }
        }),
{
    let pairs = textmap::sorted_pairs(set);
    lemma_without(headers, remove, key);
    lemma_with(without_names(headers, remove), pairs, key);
    textmap::sorted_pairs_describe_their_map(set);
    assert forall|s: Seq<char>| #[trigger] set.contains_key(s) && text::lower(s)
        == key implies exists|i: int|
        0 <= i < pairs.len() && text::lower(#[trigger] pairs[i].0) == key by {
        let i = choose|i: int| 0 <= i < pairs.len() && (#[trigger] pairs[i]).0 == s;
        assert(text::lower(pairs[i].0) == key);
    }
    assert forall|i: int| 0 <= i < pairs.len() && text::lower(#[trigger] pairs[i].0)
        == key implies exists|s: Seq<char>| #[trigger] set.contains_key(s) && text::lower(s)
        == key by {
        assert(set.contains_key(pairs[i].0));
    }
    let after = modified(headers, set, remove);
    assert forall|s: Seq<char>| #[trigger]
        set.contains_key(s) && text::lower(s) == key && (forall|other: Seq<char>| #[trigger]
            set.contains_key(other) && other != s ==> text::lower(other)
                != key) implies after[key] == set[s] by {
        let i = choose|i: int| 0 <= i < pairs.len() && (#[trigger] pairs[i]).0 == s;
        assert(text::lower(pairs[i].0) == key);
        assert forall|j: int| i < j < pairs.len() implies text::lower(#[trigger] pairs[j].0)
            != key by {
            assert(text::text_less(pairs[i].0, pairs[j].0));
            text::text_order_total(pairs[i].0, pairs[j].0);
            assert(set.contains_key(pairs[j].0));
        }
        assert(set[pairs[i].0] == pairs[i].1);
    }
}

/// A message whose body was replaced is framed by the length of its body: that length is what its
/// headers state, and no transfer coding is left.
pub proof fn fixed_bodies_state_their_length(headers: http1::HeadersView, length: nat)
    requires
        length <= usize::MAX,
    ensures
        http1::length_of(fixed_length_headers(headers, length)) == Some(length),
        !fixed_length_headers(headers, length).contains_key("transfer-encoding"@),
{
    text::decimals_read_back(length);
    reveal_strlit("transfer-encoding");
    reveal_strlit("content-length");
    assert("transfer-encoding"@.len() != "content-length"@.len());
}

/// A response that the proxy makes up states the length of its body and a content type; the other
/// headers are those that were given.
pub proof fn replacements_are_self_contained(
    status: u16,
    headers: http1::HeadersView,
    length: nat,
    key: Seq<char>,
)
    requires
        length <= usize::MAX,
    ensures
        ({
            let head = replacement_head(status, headers, length);
            &&& http1::length_of(head.headers) == Some(length)
            &&& head.headers.contains_key("content-type"@)
            &&& headers.contains_key(key) && key != "content-length"@ ==> head.headers.contains_key(
                key,
            ) && head.headers[key] == headers[key]
        }),
{
    text::decimals_read_back(length);
    reveal_strlit("content-type");
    reveal_strlit("content-length");
    assert("content-type"@.len() != "content-length"@.len());
}

/// A target in absolute form becomes one in origin form, which starts with a slash; any other
/// target stays as it is.
pub proof fn absolute_targets_become_origin_form(target: Seq<char>)
    ensures
        text::starts_with(target, scheme()) ==> origin_of(target).len() > 0 && origin_of(target)[0]
            == '/',
        !text::starts_with(target, scheme()) ==> origin_of(target) == target,
{
    reveal_strlit("/");
    if text::starts_with(target, scheme()) {
        let rest = target.skip(scheme().len() as int);
        text::lemma_first_index(rest, '/');
    }
}

} // verus!
