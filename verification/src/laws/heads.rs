//! Promises about heads and bodies: how heads are read and written, where a request goes, and
//! where a body ends.
use crate::events;
use crate::events::{Direction, EndpointView};
use crate::hooks;
use crate::laws::texts;
use crate::outside;
use crate::parsers::certificate;
use crate::parsers::http1;
use crate::parsers::http1::HeadView;
use crate::proxy::entry;
use crate::proxy::framing;
use crate::proxy::framing::{ChunkState, ChunkStep, Framing, ReadStep};
use crate::proxy::message;
use crate::proxy::message::ProxyError;
use crate::proxy::session::{EffectView, Side};
use crate::text;
use crate::textmap;
use vstd::prelude::*;

verus! {

// ---------------------------------------------------------------------------------------------
// Reading heads
// ---------------------------------------------------------------------------------------------

/// Headers hold what header lines say: for each line, its name in lower case has the value of the
/// last line with that name, without the white space around it; and there are no other headers.
pub open spec fn holds_lines(
    headers: Map<Seq<char>, Seq<char>>,
    lines: Seq<outside::HeaderLineView>,
) -> bool {
    &&& forall|i: int|
        0 <= i < lines.len() && (forall|j: int|
            i < j < lines.len() ==> text::lower((#[trigger] lines[j]).name) != text::lower(
                lines[i].name,
            )) ==> headers.contains_key(text::lower((#[trigger] lines[i]).name)) && headers[text::lower(
            lines[i].name,
        )] == text::trim(outside::lossy(lines[i].value))
    &&& forall|key: Seq<char>| #[trigger]
        headers.contains_key(key) ==> exists|i: int|
            0 <= i < lines.len() && text::lower((#[trigger] lines[i]).name) == key
}

proof fn lemma_lines(lines: Seq<outside::HeaderLineView>)
    ensures
        holds_lines(http1::headers_of(lines), lines),
    decreases lines.len(),
{
    let pairs = lines.map_values(|line: outside::HeaderLineView| http1::header_pair(line));
    if lines.len() > 0 {
        let front = lines.drop_last();
        let last = lines.last();
        lemma_lines(front);
        let before = http1::headers_of(front);
        let after = http1::headers_of(lines);
        assert(pairs.drop_last() =~= front.map_values(
            |line: outside::HeaderLineView| http1::header_pair(line),
        ));
        assert(after == before.insert(
            text::lower(last.name),
            text::trim(outside::lossy(last.value)),
        ));
        assert forall|i: int|
            0 <= i < lines.len() && (forall|j: int|
                i < j < lines.len() ==> text::lower((#[trigger] lines[j]).name) != text::lower(
                    lines[i].name,
                )) implies after.contains_key(text::lower((#[trigger] lines[i]).name))
            && after[text::lower(lines[i].name)] == text::trim(outside::lossy(lines[i].value)) by {
            if i < front.len() {
                assert(lines[lines.len() - 1] == last);
                assert(text::lower(last.name) != text::lower(lines[i].name));
                assert(front[i] == lines[i]);
                assert forall|j: int| i < j < front.len() implies text::lower(
                    (#[trigger] front[j]).name,
                ) != text::lower(front[i].name) by {
                    assert(front[j] == lines[j]);
                }
            }
        }
        assert forall|key: Seq<char>| #[trigger] after.contains_key(key) implies exists|i: int|
            0 <= i < lines.len() && text::lower((#[trigger] lines[i]).name) == key by {
            if key == text::lower(last.name) {
                assert(text::lower(lines[lines.len() - 1].name) == key);
            } else {
                assert(before.contains_key(key));
                let i = choose|i: int|
                    0 <= i < front.len() && text::lower((#[trigger] front[i]).name) == key;
                assert(text::lower(lines[i].name) == key);
            }
        }
    }
}

/// A complete request with a method is read as that request, whatever else the bytes may be: with
/// its method, its target, its version and the headers that its lines give.
pub proof fn requests_are_read(
    parts: outside::RequestPartsView,
    response: Result<Option<outside::ResponsePartsView>, Seq<char>>,
)
    requires
        parts.method is Some,
    ensures
        http1::head_of(Ok(Some(parts)), response) matches Ok(HeadView::Request(request)) && {
            &&& Some(request.method) == parts.method
            &&& parts.path matches Some(path) ==> request.target == path
            &&& parts.path is None ==> request.target == Seq::<char>::empty()
            &&& parts.version == Some(0u8) ==> request.version == "HTTP/1.0"@
            &&& parts.version == Some(1u8) || parts.version is None ==> request.version
                == "HTTP/1.1"@
            &&& holds_lines(request.headers, parts.headers)
        },
{
    lemma_lines(parts.headers);
    lemma_versions();
}

proof fn lemma_versions()
    ensures
        http1::version_of(Some(0u8)) == "HTTP/1.0"@,
        http1::version_of(Some(1u8)) == "HTTP/1.1"@,
        http1::version_of(None) == "HTTP/1.1"@,
{
    reveal_strlit("HTTP/1.");
    reveal_strlit("HTTP/1.0");
    reveal_strlit("HTTP/1.1");
    assert(text::decimal(0) =~= seq!['0']);
    assert(text::decimal(1) =~= seq!['1']);
    assert(http1::version_of(Some(0u8)) =~= "HTTP/1.0"@);
    assert(http1::version_of(Some(1u8)) =~= "HTTP/1.1"@);
}

/// Bytes that are no complete request with a method are read as a response where they are a
/// complete one with a status: with its status, its reason, its version and the headers that its
/// lines give.
pub proof fn responses_are_read(
    request: Result<Option<outside::RequestPartsView>, Seq<char>>,
    parts: outside::ResponsePartsView,
)
    requires
        request matches Ok(Some(found)) ==> found.method is None,
        parts.code is Some,
    ensures
        http1::head_of(request, Ok(Some(parts))) matches Ok(HeadView::Response(response)) && {
            &&& Some(response.status) == parts.code
            &&& parts.reason matches Some(reason) ==> response.reason == reason
            &&& parts.reason is None ==> response.reason == Seq::<char>::empty()
            &&& parts.version == Some(0u8) ==> response.version == "HTTP/1.0"@
            &&& parts.version == Some(1u8) || parts.version is None ==> response.version
                == "HTTP/1.1"@
            &&& holds_lines(response.headers, parts.headers)
        },
{
    lemma_lines(parts.headers);
    lemma_versions();
}

/// Bytes that are neither are refused: with what is wrong with them as a request where that is
/// known, else with what is wrong with them as a response, as incomplete, or for want of a status.
pub proof fn other_heads_are_refused(
    request: Result<Option<outside::RequestPartsView>, Seq<char>>,
    response: Result<Option<outside::ResponsePartsView>, Seq<char>>,
)
    requires
        request matches Ok(Some(found)) ==> found.method is None,
        response matches Ok(Some(found)) ==> found.code is None,
    ensures
        http1::head_of(request, response) matches Err(reason) && {
            &&& request matches Err(fault) ==> reason == fault
            &&& request is Ok && response is Ok && response->Ok_0 is None ==> reason
                == "incomplete or invalid HTTP/1 header"@
            &&& request is Ok && response is Ok && response->Ok_0 is Some ==> reason
                == "response has no status"@
            &&& request is Ok ==> (response matches Err(fault) ==> reason == fault)
        },
{
}

// ---------------------------------------------------------------------------------------------
// Where bodies end
// ---------------------------------------------------------------------------------------------

/// Headers state a length exactly where their content length is a number that fits; a length that
/// was written is read back.
pub proof fn lengths_are_read_back(headers: http1::HeadersView, length: nat)
    ensures
        !headers.contains_key("content-length"@) ==> http1::length_of(headers) is None,
        headers.contains_key("content-length"@) && headers["content-length"@] == text::decimal(
            length,
        ) && length <= usize::MAX ==> http1::length_of(headers) == Some(length),
        headers.contains_key("content-length"@) && headers["content-length"@] == text::decimal(
            length,
        ) && length > usize::MAX ==> http1::length_of(headers) is None,
        headers.contains_key("content-length"@) && (text::unsigned_value(
            headers["content-length"@],
            10,
        ) is None) ==> http1::length_of(headers) is None,
{
    text::decimals_read_back(length);
}

/// A body is chunked exactly where one of the transfer codings between the commas, without the
/// white space around it and in whatever case, is that.
pub proof fn chunks_are_announced(headers: http1::HeadersView, codings: Seq<Seq<char>>)
    requires
        codings.len() > 0,
        forall|i: int| 0 <= i < codings.len() ==> !(#[trigger] codings[i]).contains(','),
    ensures
        !headers.contains_key("transfer-encoding"@) ==> !http1::chunked(headers),
        headers.contains_key("transfer-encoding"@) && text::lower(headers["transfer-encoding"@])
            == text::join(codings, seq![',']) ==> http1::chunked(headers) == (exists|i: int|
            0 <= i < codings.len() && text::trim(#[trigger] codings[i]) == "chunked"@),
{
    texts::joined_texts_are_split(codings, ',');
}

/// The body of a request ends after its stated length; without one it ends with the last chunk
/// where it is chunked; and otherwise there is none.
pub proof fn request_bodies_are_framed(headers: http1::HeadersView)
    ensures
        match http1::length_of(headers) {
            Some(n) => framing::request_framing(headers) == Framing::Length(n as usize),
            None => framing::request_framing(headers) == (if http1::chunked(headers) {
                Framing::Chunked
            } else {
                Framing::Empty
            }),
        },
{
}

/// A response with a status below 200, or with 204 or 304, has no body; any other ends as a
/// request would, except that one without length and chunks ends with the connection.
pub proof fn response_bodies_are_framed(response: http1::ResponseHeadView)
    ensures
        ({
            let framed = framing::response_framing(response);
            let bodiless = 100 <= response.status <= 199 || response.status == 204
                || response.status == 304;
            let length = http1::length_of(response.headers);
            &&& bodiless ==> framed == Framing::Empty
            &&& !bodiless && length is Some ==> framed == Framing::Length(length->0 as usize)
            &&& !bodiless && length is None && http1::chunked(response.headers) ==> framed
                == Framing::Chunked
            &&& !bodiless && length is None && !http1::chunked(response.headers) ==> framed
                == Framing::UntilClose
        }),
{
}

/// The line before a chunk states its size in hexadecimal digits, up to a semicolon. A chunk of
/// size zero leads to the trailer, and any other is passed on with the line end behind it; a line
/// that is no text and a size that is no number are refused.
pub proof fn chunk_sizes_are_read(line: Seq<u8>, stated: Seq<char>, more: Seq<char>)
    requires
        !stated.contains(';'),
        more.len() > 0 ==> more[0] == ';',
        vstd::utf8::valid_utf8(line) ==> text::trim(vstd::utf8::decode_utf8(line)) == stated
            + more,
    ensures
        ({
            let step = framing::chunk_step(ChunkState::Size, line);
            let size = text::unsigned_value(stated, 16);
            if !vstd::utf8::valid_utf8(line) {
                step == Err::<ChunkStep, ProxyError>(ProxyError::LineNotText)
            } else {
                match size {
                    Some(n) if n <= usize::MAX => if n == 0 {
                        step == Ok::<ChunkStep, ProxyError>(ChunkStep::Trailer)
                    } else {
                        step matches Ok(ChunkStep::Copy(m)) && m == n + 2
                    },
                    _ => step == Err::<ChunkStep, ProxyError>(ProxyError::InvalidChunkSize),
                }
            }
        }),
{
    if vstd::utf8::valid_utf8(line) {
        if more.len() > 0 {
            texts::texts_are_cut(stated, ';', more.skip(1));
            assert(stated + more =~= stated + seq![';'] + more.skip(1));
        } else {
            texts::texts_are_cut(stated, ';', more);
            assert(stated + more =~= stated);
        }
    }
}

/// The trailer goes on up to the first empty line.
pub proof fn trailers_end_with_an_empty_line(line: Seq<u8>)
    ensures
        framing::chunk_step(ChunkState::Trailer, line) == Ok::<ChunkStep, ProxyError>(
            if line.len() == 2 && line[0] == 13 && line[1] == 10 {
                ChunkStep::Finish
            } else {
                ChunkStep::Trailer
            },
        ),
{
    if line.len() == 2 && line[0] == 13 && line[1] == 10 {
        assert(line =~= seq![13u8, 10u8]);
    }
}

/// A line is complete with its line end, and too long with more than 8192 bytes.
pub proof fn lines_are_complete_with_their_end(bytes: Seq<u8>)
    ensures
        bytes.len() > 8192 ==> framing::line_step(bytes) == ReadStep::TooLong,
        bytes.len() <= 8192 ==> framing::line_step(bytes) == (if bytes.len() >= 2
            && bytes[bytes.len() - 2] == 13 && bytes[bytes.len() - 1] == 10 {
            ReadStep::Complete
        } else {
            ReadStep::More
        }),
{
}

/// A head is complete with its first empty line, and too long with more than 65536 bytes.
pub proof fn heads_are_complete_with_their_empty_line(bytes: Seq<u8>)
    ensures
        bytes.len() > 65536 ==> framing::head_step(bytes) == ReadStep::TooLong,
        bytes.len() <= 65536 ==> framing::head_step(bytes) == (if exists|i: int|
            0 <= i && i + 4 <= bytes.len() && #[trigger] bytes[i] == 13 && bytes[i + 1] == 10
                && bytes[i + 2] == 13 && bytes[i + 3] == 10 {
            ReadStep::Complete
        } else {
            ReadStep::More
        }),
{
    assert forall|end: int| #[trigger] http1::ends_head(bytes, end) implies 4 <= end
        <= bytes.len() && bytes[end - 4] == 13 && bytes[end - 3] == 10 && bytes[end - 2] == 13
        && bytes[end - 1] == 10 by {
        let w = bytes.subrange(end - 4, end);
        assert(w[0] == bytes[end - 4] && w[1] == bytes[end - 3] && w[2] == bytes[end - 2] && w[3]
            == bytes[end - 1]);
    }
    if exists|i: int|
        0 <= i && i + 4 <= bytes.len() && #[trigger] bytes[i] == 13 && bytes[i + 1] == 10
            && bytes[i + 2] == 13 && bytes[i + 3] == 10 {
        let i = choose|i: int|
            0 <= i && i + 4 <= bytes.len() && #[trigger] bytes[i] == 13 && bytes[i + 1] == 10
                && bytes[i + 2] == 13 && bytes[i + 3] == 10;
        assert(bytes.subrange(i, i + 4) =~= seq![13u8, 10u8, 13u8, 10u8]);
        assert(http1::ends_head(bytes, i + 4));
    }
    if exists|end: int| #[trigger] http1::ends_head(bytes, end) {
        let end = choose|end: int| #[trigger] http1::ends_head(bytes, end);
        assert(bytes[end - 4] == 13);
    }
}

/// The empty line that closes a head ends at a position exactly where the four bytes before it are
/// two line ends.
pub proof fn heads_end_with_two_line_ends(bytes: Seq<u8>, end: int)
    ensures
        http1::ends_head(bytes, end) == (4 <= end <= bytes.len() && bytes[end - 4] == 13
            && bytes[end - 3] == 10 && bytes[end - 2] == 13 && bytes[end - 1] == 10),
{
    if 4 <= end <= bytes.len() {
        let w = bytes.subrange(end - 4, end);
        assert(w[0] == bytes[end - 4] && w[1] == bytes[end - 3] && w[2] == bytes[end - 2] && w[3]
            == bytes[end - 1]);
        if bytes[end - 4] == 13 && bytes[end - 3] == 10 && bytes[end - 2] == 13 && bytes[end - 1]
            == 10 {
            assert(w =~= seq![13u8, 10u8, 13u8, 10u8]);
        }
    }
}

/// A body is JSON where its type, in whatever case, starts with `application/json` or holds
/// `+json`; it is shown where it is, and is neither compressed nor chunked, and states a length
/// within the limit.
pub proof fn small_json_bodies_are_shown(headers: http1::HeadersView, limit: usize)
    ensures
        ({
            let kind = text::lower(headers["content-type"@]);
            let json = headers.contains_key("content-type"@) && (text::starts_with(
                kind,
                "application/json"@,
            ) || text::contains_text(kind, "+json"@));
            let length = http1::length_of(headers);
            let fits = json && !headers.contains_key("content-encoding"@) && !http1::chunked(headers)
                && length is Some && length->0 <= limit;
            &&& fits ==> message::shown_length(headers, limit) == length
            &&& !fits ==> message::shown_length(headers, limit) is None
        }),
{
}

// ---------------------------------------------------------------------------------------------
// Writing heads
// ---------------------------------------------------------------------------------------------

/// The lines of headers: for each its name, a colon, a space and its value.
pub open spec fn header_lines(pairs: Seq<(Seq<char>, Seq<char>)>) -> Seq<char>
    decreases pairs.len(),
{
    if pairs.len() == 0 {
        Seq::empty()
    } else {
        pairs[0].0 + seq![':', ' '] + pairs[0].1 + seq!['\r', '\n'] + header_lines(pairs.skip(1))
    }
}

proof fn lemma_header_lines(pairs: Seq<(Seq<char>, Seq<char>)>, last: (Seq<char>, Seq<char>))
    ensures
        header_lines(pairs.push(last)) == header_lines(pairs) + last.0 + seq![':', ' '] + last.1
            + seq!['\r', '\n'],
    decreases pairs.len(),
{
    if pairs.len() == 0 {
        assert(pairs.push(last).skip(1) =~= Seq::<(Seq<char>, Seq<char>)>::empty());
        assert(header_lines(pairs.push(last).skip(1)) =~= Seq::<char>::empty());
        assert(pairs.push(last)[0] == last);
        assert(header_lines(pairs.push(last)) =~= last.0 + seq![':', ' '] + last.1 + seq![
            '\r',
            '\n',
        ]);
        assert(header_lines(pairs) =~= Seq::<char>::empty());
        assert(header_lines(pairs) + last.0 =~= last.0);
    } else {
        assert(pairs.push(last).skip(1) =~= pairs.skip(1).push(last));
        assert(pairs.push(last)[0] == pairs[0]);
        lemma_header_lines(pairs.skip(1), last);
        let rest = header_lines(pairs.skip(1));
        let first = pairs[0].0 + seq![':', ' '] + pairs[0].1 + seq!['\r', '\n'];
        assert(first + (rest + last.0 + seq![':', ' '] + last.1 + seq!['\r', '\n']) =~= (first
            + rest) + last.0 + seq![':', ' '] + last.1 + seq!['\r', '\n']);
    }
}

proof fn lemma_header_text(pairs: Seq<(Seq<char>, Seq<char>)>)
    ensures
        message::header_text(pairs) == header_lines(pairs),
    decreases pairs.len(),
{
    reveal_strlit(": ");
    reveal_strlit("\r\n");
    assert(": "@ =~= seq![':', ' ']);
    assert("\r\n"@ =~= seq!['\r', '\n']);
    if pairs.len() > 0 {
        lemma_header_text(pairs.drop_last());
        lemma_header_lines(pairs.drop_last(), pairs.last());
        assert(pairs.drop_last().push(pairs.last()) =~= pairs);
    }
}

/// A list holds exactly the headers of a map, each once, in the order of their names.
pub open spec fn lists_headers(
    pairs: Seq<(Seq<char>, Seq<char>)>,
    headers: Map<Seq<char>, Seq<char>>,
) -> bool {
    &&& forall|i: int, j: int|
        0 <= i < j < pairs.len() ==> text::text_less(
            (#[trigger] pairs[i]).0,
            (#[trigger] pairs[j]).0,
        )
    &&& forall|i: int|
        0 <= i < pairs.len() ==> headers.contains_key((#[trigger] pairs[i]).0)
            && headers[pairs[i].0] == pairs[i].1
    &&& forall|key: Seq<char>| #[trigger]
        headers.contains_key(key) ==> exists|i: int|
            0 <= i < pairs.len() && (#[trigger] pairs[i]).0 == key
}

/// A head is written as its first line, a line for each header in the order of their names, and
/// an empty line. The first line of a request is its method, its target as the destination expects
/// it and its version; that of a response its version, its status in decimal and its reason; with
/// spaces between them.
pub proof fn heads_are_written_line_by_line(
    request: http1::RequestHeadView,
    response: http1::ResponseHeadView,
)
    requires
        request.headers.dom().finite(),
        response.headers.dom().finite(),
    ensures
        exists|pairs: Seq<(Seq<char>, Seq<char>)>| #[trigger]
            lists_headers(pairs, request.headers) && message::request_text(request)
                == request.method + seq![' '] + message::origin_of(request.target) + seq![' ']
                + request.version + seq!['\r', '\n'] + (header_lines(pairs) + seq!['\r', '\n']),
        exists|pairs: Seq<(Seq<char>, Seq<char>)>| #[trigger]
            lists_headers(pairs, response.headers) && message::response_text(response)
                == response.version + seq![' '] + text::decimal(response.status as nat) + seq![' ']
                + response.reason + seq!['\r', '\n'] + (header_lines(pairs) + seq!['\r', '\n']),
{
    reveal_strlit(" ");
    reveal_strlit("\r\n");
    assert(" "@ =~= seq![' ']);
    assert("\r\n"@ =~= seq!['\r', '\n']);
    let a = textmap::sorted_pairs(request.headers);
    lemma_header_text(a);
    lemma_lists(request.headers);
    let b = textmap::sorted_pairs(response.headers);
    lemma_header_text(b);
    lemma_lists(response.headers);
}

proof fn lemma_lists(headers: Map<Seq<char>, Seq<char>>)
    requires
        headers.dom().finite(),
    ensures
        lists_headers(textmap::sorted_pairs(headers), headers),
{
    textmap::sorted_pairs_describe_their_map(headers);
}

/// A head that the proxy makes up has the given status, the reason `Intercepted` and the given
/// headers, with the length of the body in place of any other, and plain text as its type where
/// none is given.
pub proof fn made_up_heads_describe_their_body(
    status: u16,
    headers: http1::HeadersView,
    length: nat,
)
    ensures
        ({
            let head = message::replacement_head(status, headers, length);
            &&& head.status == status
            &&& head.reason == "Intercepted"@
            &&& head.version == "HTTP/1.1"@
            &&& head.headers.contains_key("content-length"@)
            &&& head.headers["content-length"@] == text::decimal(length)
            &&& head.headers.contains_key("content-type"@)
            &&& head.headers["content-type"@] == (if headers.contains_key("content-type"@) {
                headers["content-type"@]
            } else {
                "text/plain; charset=utf-8"@
            })
            &&& forall|key: Seq<char>|
                key != "content-length"@ && key != "content-type"@ ==> {
                    &&& #[trigger] head.headers.contains_key(key) == headers.contains_key(key)
                    &&& headers.contains_key(key) ==> head.headers[key] == headers[key]
                }
        }),
{
    reveal_strlit("content-type");
    reveal_strlit("content-length");
    assert("content-type"@.len() != "content-length"@.len());
}

// ---------------------------------------------------------------------------------------------
// Where requests go
// ---------------------------------------------------------------------------------------------

/// An authority names a host and, behind its last colon, a port; it has the default port where
/// there is no colon or where a closing bracket stands before the last one. The brackets around
/// the host are left out, and what is no port number is refused.
pub proof fn authorities_are_read(
    value: Seq<char>,
    default: u16,
    host: Seq<char>,
    port: Seq<char>,
)
    requires
        !port.contains(':'),
    ensures
        !text::trim(value).contains(':') ==> message::authority_of(value, default) == Ok::<
            (Seq<char>, u16),
            ProxyError,
        >((text::trim_brackets(text::trim(value)), default)),
        text::trim(value) == host + seq![':'] + port && host.contains(']')
            ==> message::authority_of(value, default) == Ok::<(Seq<char>, u16), ProxyError>(
            (text::trim_brackets(text::trim(value)), default),
        ),
        text::trim(value) == host + seq![':'] + port && !host.contains(']') ==> match (
            text::unsigned_value(port, 10),
            message::authority_of(value, default),
        ) {
            (Some(n), Ok((h, p))) => n <= 65535 && h == text::trim_brackets(host) && p == n,
            (Some(n), Err(e)) => n > 65535 && e == ProxyError::InvalidPort,
            (None, r) => r == Err::<(Seq<char>, u16), ProxyError>(ProxyError::InvalidPort),
        },
{
    let v = text::trim(value);
    text::lemma_last_index(v, ':');
    if !v.contains(':') {
        match text::last_index(v, ':') {
            Some(i) => {
                assert(v.contains(v[i]));
            },
            None => {},
        }
    }
    if v == host + seq![':'] + port {
        let n = host.len() as int;
        assert(v[n] == ':');
        match text::last_index(v, ':') {
            Some(i) => {
                if i > n {
                    assert(v[i] == port[i - n - 1]);
                    assert(port.contains(port[i - n - 1]));
                }
                assert(i == n);
                assert(v.take(n) =~= host);
                assert(v.skip(n + 1) =~= port);
            },
            None => {},
        }
    }
}

/// A request with an absolute target goes to the authority in it, and is written with the path
/// alone; any other goes to its host, with its target as it is, and one without host is refused.
/// The default port is 80.
pub proof fn targets_name_the_destination(
    request: http1::RequestHeadView,
    authority: Seq<char>,
    path: Seq<char>,
)
    requires
        !authority.contains('/'),
        path.len() > 0 ==> path[0] == '/',
    ensures
        request.target == "http://"@ + authority + path ==> {
            &&& message::destination_of(request) == message::authority_of(authority, 80)
            &&& message::origin_of(request.target) == (if path.len() > 0 {
                path
            } else {
                seq!['/']
            })
        },
        !text::starts_with(request.target, "http://"@) ==> {
            &&& message::origin_of(request.target) == request.target
            &&& request.headers.contains_key("host"@) ==> message::destination_of(request)
                == message::authority_of(request.headers["host"@], 80)
            &&& !request.headers.contains_key("host"@) ==> message::destination_of(request) == Err::<
                (Seq<char>, u16),
                ProxyError,
            >(ProxyError::NoHost)
        },
{
    reveal_strlit("/");
    assert("/"@ =~= seq!['/']);
    if request.target == "http://"@ + authority + path {
        lemma_absolute("http://"@, authority, path);
    }
}

proof fn lemma_absolute(scheme: Seq<char>, authority: Seq<char>, path: Seq<char>)
    requires
        !authority.contains('/'),
        path.len() > 0 ==> path[0] == '/',
    ensures
        ({
            let target = scheme + authority + path;
            let rest = target.skip(scheme.len() as int);
            &&& text::starts_with(target, scheme)
            &&& text::before_first(rest, '/') == authority
            &&& path.len() == 0 ==> text::first_index(rest, '/') is None
            &&& path.len() > 0 ==> (text::first_index(rest, '/') matches Some(i) && rest.skip(i)
                == path)
        }),
{
    let target = scheme + authority + path;
    let rest = target.skip(scheme.len() as int);
    assert(target.take(scheme.len() as int) =~= scheme);
    assert(rest =~= authority + path);
    lemma_path(authority, path);
}

proof fn lemma_path(authority: Seq<char>, path: Seq<char>)
    requires
        !authority.contains('/'),
        path.len() > 0 ==> path[0] == '/',
    ensures
        ({
            let rest = authority + path;
            &&& text::before_first(rest, '/') == authority
            &&& path.len() == 0 ==> text::first_index(rest, '/') is None
            &&& path.len() > 0 ==> (text::first_index(rest, '/') matches Some(i) && rest.skip(i)
                == path)
        }),
{
    let rest = authority + path;
    text::lemma_first_index(rest, '/');
    if path.len() > 0 {
        let n = authority.len() as int;
        assert(rest[n] == '/');
        assert forall|j: int| 0 <= j < n implies rest[j] != '/' by {
            assert(rest[j] == authority[j]);
            assert(authority.contains(authority[j]));
        }
        text::lemma_first_index_is(rest, '/', n);
        assert(rest.skip(n) =~= path);
        assert(rest.take(n) =~= authority);
    } else {
        assert(rest =~= authority);
        match text::first_index(rest, '/') {
            Some(i) => {
                assert(authority.contains(rest[i]));
            },
            None => {},
        }
    }
}

/// A proxied connection is named by its two endpoints.
pub proof fn proxied_connections_are_named(source: EndpointView, destination: EndpointView)
    ensures
        message::proxied_id(source, destination) == source.host + seq![':'] + text::decimal(
            source.port as nat,
        ) + seq!['-'] + destination.host + seq![':'] + text::decimal(destination.port as nat),
{
    reveal_strlit(":");
    reveal_strlit("-");
    assert(":"@ =~= seq![':']);
    assert("-"@ =~= seq!['-']);
}

/// The certificate of the destination is reported on the way to the client with its four fields,
/// where it can be read.
pub proof fn destination_certificates_are_reported(
    id: Seq<char>,
    source: EndpointView,
    destination: EndpointView,
    summary: certificate::CertificateSummaryView,
    reason: Seq<char>,
)
    ensures
        message::certificate_draft(id, source, destination, Err(reason)) is None,
        message::certificate_draft(id, source, destination, Ok(summary)) == Some(
            events::EventDraftView {
                connection_id: id,
                direction: Direction::ServerToClient,
                source: destination,
                destination: source,
                kind: events::EventKindView::TlsCertificate {
                    subject: Some(summary.subject),
                    issuer: Some(summary.issuer),
                    serial: Some(summary.serial),
                    not_after: Some(summary.not_after),
                },
                attributes: Map::empty(),
            },
        ),
{
}

/// A first request to connect, in whatever case, opens a tunnel to the authority that it names,
/// with port 443 unless another is given; any other is a plain request to its destination. Both
/// are reported from the client to that destination. A response is refused, and so is a request
/// whose destination cannot be read.
pub proof fn first_heads_are_planned(
    request: http1::RequestHeadView,
    response: http1::ResponseHeadView,
    peer: EndpointView,
    mitm: bool,
)
    ensures
        entry::client_plan(HeadView::Response(response), peer, mitm) == Err::<
            entry::ClientPlanView,
            ProxyError,
        >(ProxyError::ClientSentResponse),
        ({
            let connects = text::lower(request.method) == seq!['c', 'o', 'n', 'n', 'e', 'c', 't'];
            let place = if connects {
                message::authority_of(request.target, 443)
            } else {
                message::destination_of(request)
            };
            match (place, entry::client_plan(HeadView::Request(request), peer, mitm)) {
                (Err(e), r) => r == Err::<entry::ClientPlanView, ProxyError>(e),
                (Ok((host, port)), Ok(plan)) => {
                    let destination = EndpointView { host, port };
                    let id = message::proxied_id(peer, destination);
                    let route = entry::RouteView { id, source: peer, destination };
                    let event = events::EventDraftView {
                        connection_id: id,
                        direction: Direction::ClientToServer,
                        source: peer,
                        destination,
                        kind: if connects {
                            events::EventKindView::Tunnel {
                                authority: request.target,
                                intercepted: mitm,
                            }
                        } else {
                            events::EventKindView::HttpRequest {
                                method: request.method,
                                target: request.target,
                                version: request.version,
                                headers: request.headers,
                            }
                        },
                        attributes: Map::empty(),
                    };
                    plan == (if connects {
                        entry::ClientPlanView::Tunnel { route, event, intercepted: mitm }
                    } else {
                        entry::ClientPlanView::Request { route, event, request }
                    })
                },
                _ => false,
            }
        }),
{
    reveal_strlit("connect");
    assert("connect"@ =~= seq!['c', 'o', 'n', 'n', 'e', 'c', 't']);
}

/// The decision about a first plain request is followed before anything is connected: one that is
/// dropped or answered is read to its end, and the answer is written to the client; one that is
/// delayed waits and goes on as it is; and any other is served under the decision.
pub proof fn first_decisions_are_followed(
    request: http1::RequestHeadView,
    reason: Option<Seq<char>>,
    status: Option<u16>,
    headers: http1::HeadersView,
    body: Seq<u8>,
    milliseconds: u64,
    set_headers: http1::HeadersView,
    remove_headers: Seq<Seq<char>>,
    given: Option<Seq<u8>>,
)
    ensures
        ({
            let drain = EffectView::Drain(
                Side::Client,
                framing::request_framing(request.headers),
            );
            let code = match status {
                Some(code) => code,
                None => 200,
            };
            let head = message::replacement_head(code, headers, body.len());
            let modification = hooks::ActionView::Modify {
                set_headers,
                remove_headers,
                body: given,
            };
            &&& entry::first_step(request, hooks::ActionView::Drop { reason })
                == entry::FirstStepView::End(seq![drain])
            &&& entry::first_step(request, hooks::ActionView::Respond { status, headers, body })
                == entry::FirstStepView::End(
                seq![
                    drain,
                    EffectView::Write(
                        Side::Client,
                        vstd::utf8::encode_utf8(message::response_text(head)) + body,
                    ),
                ],
            )
            &&& entry::first_step(request, hooks::ActionView::Delay { milliseconds })
                == (entry::FirstStepView::Connect {
                effects: seq![EffectView::Sleep(milliseconds)],
                action: hooks::ActionView::Continue,
            })
            &&& entry::first_step(request, hooks::ActionView::Continue)
                == (entry::FirstStepView::Connect {
                effects: Seq::empty(),
                action: hooks::ActionView::Continue,
            })
            &&& entry::first_step(request, modification) == (entry::FirstStepView::Connect {
                effects: Seq::empty(),
                action: modification,
            })
        }),
{
}

} // verus!
