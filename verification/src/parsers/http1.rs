//! HTTP/1 message heads.
use crate::outside;
use crate::text;
use crate::textmap;
use crate::textmap::{Headers, TextMap};
use vstd::prelude::*;
use vstd::string::StringExecFns;

verus! {

/// The head of a message.
#[derive(Debug, PartialEq, Eq)]
pub enum Head {
    Request(RequestHead),
    Response(ResponseHead),
}

/// The head of a request; header names are in lower case.
#[derive(Debug, PartialEq, Eq)]
pub struct RequestHead {
    pub method: String,
    pub target: String,
    pub version: String,
    pub headers: Headers,
}

/// The head of a response; header names are in lower case.
#[derive(Debug, PartialEq, Eq)]
pub struct ResponseHead {
    pub status: u16,
    pub reason: String,
    pub version: String,
    pub headers: Headers,
}

/// The model of headers.
pub type HeadersView = Map<Seq<char>, Seq<char>>;

/// The model of a [`RequestHead`].
#[verifier::ext_equal]
pub struct RequestHeadView {
    pub method: Seq<char>,
    pub target: Seq<char>,
    pub version: Seq<char>,
    pub headers: HeadersView,
}

/// The model of a [`ResponseHead`].
#[verifier::ext_equal]
pub struct ResponseHeadView {
    pub status: u16,
    pub reason: Seq<char>,
    pub version: Seq<char>,
    pub headers: HeadersView,
}

/// The model of a [`Head`].
pub enum HeadView {
    Request(RequestHeadView),
    Response(ResponseHeadView),
}

impl View for RequestHead {
    type V = RequestHeadView;

    open spec fn view(&self) -> RequestHeadView {
        RequestHeadView {
            method: self.method@,
            target: self.target@,
            version: self.version@,
            headers: self.headers@,
        }
    }
}

impl View for ResponseHead {
    type V = ResponseHeadView;

    open spec fn view(&self) -> ResponseHeadView {
        ResponseHeadView {
            status: self.status,
            reason: self.reason@,
            version: self.version@,
            headers: self.headers@,
        }
    }
}

impl View for Head {
    type V = HeadView;

    open spec fn view(&self) -> HeadView {
        match self {
            Head::Request(head) => HeadView::Request(head@),
            Head::Response(head) => HeadView::Response(head@),
        }
    }
}

impl Clone for RequestHead {
    fn clone(&self) -> (r: Self)
        ensures
            r@ == self@,
    {
        RequestHead {
            method: self.method.clone(),
            target: self.target.clone(),
            version: self.version.clone(),
            headers: self.headers.clone(),
        }
    }
}

impl Clone for ResponseHead {
    fn clone(&self) -> (r: Self)
        ensures
            r@ == self@,
    {
        ResponseHead {
            status: self.status,
            reason: self.reason.clone(),
            version: self.version.clone(),
            headers: self.headers.clone(),
        }
    }
}

impl Clone for Head {
    fn clone(&self) -> (r: Self)
        ensures
            r@ == self@,
    {
        match self {
            Head::Request(head) => Head::Request(head.clone()),
            Head::Response(head) => Head::Response(head.clone()),
        }
    }
}

// ---------------------------------------------------------------------------------------------
// Parsing
// ---------------------------------------------------------------------------------------------

/// How many headers a head may have.
pub const MAX_HEADERS: usize = 128;

/// One header line: its name in lower case and its value without surrounding white space.
pub open spec fn header_pair(line: outside::HeaderLineView) -> (Seq<char>, Seq<char>) {
    (text::lower(line.name), text::trim(outside::lossy(line.value)))
}

/// The headers that header lines give; of two lines with one name the later counts.
pub open spec fn headers_of(lines: Seq<outside::HeaderLineView>) -> HeadersView {
    textmap::pairs_map(lines.map_values(|line: outside::HeaderLineView| header_pair(line)))
}

/// The protocol version with the given minor number; 1 where there is none.
pub open spec fn version_of(minor: Option<u8>) -> Seq<char> {
    "HTTP/1."@ + text::decimal(
        match minor {
            Some(n) => n as nat,
            None => 1,
        },
    )
}

/// A text, or the empty text where there is none.
pub open spec fn or_empty(part: Option<Seq<char>>) -> Seq<char> {
    match part {
        Some(s) => s,
        None => Seq::empty(),
    }
}

/// The response head that the response parser found.
pub open spec fn response_of(
    parsed: Result<Option<outside::ResponsePartsView>, Seq<char>>,
) -> Result<HeadView, Seq<char>> {
    match parsed {
        Err(e) => Err(e),
        Ok(None) => Err("incomplete or invalid HTTP/1 header"@),
        Ok(Some(parts)) => match parts.code {
            None => Err("response has no status"@),
            Some(status) => Ok(
                HeadView::Response(
                    ResponseHeadView {
                        status,
                        reason: or_empty(parts.reason),
                        version: version_of(parts.version),
                        headers: headers_of(parts.headers),
                    },
                ),
            ),
        },
    }
}

/// The head that the two parsers found in one buffer. A complete request counts first. Bytes that
/// cannot start a request are a response if the response parser accepts them; if neither parser
/// does, the request parser's error is the one to report.
pub open spec fn head_of(
    request: Result<Option<outside::RequestPartsView>, Seq<char>>,
    response: Result<Option<outside::ResponsePartsView>, Seq<char>>,
) -> Result<HeadView, Seq<char>> {
    match request {
        Ok(Some(parts)) if parts.method is Some => Ok(
            HeadView::Request(
                RequestHeadView {
                    method: parts.method->0,
                    target: or_empty(parts.path),
                    version: version_of(parts.version),
                    headers: headers_of(parts.headers),
                },
            ),
        ),
        Ok(_) => response_of(response),
        Err(e) => match response_of(response) {
            Ok(head) => Ok(head),
            Err(_) => Err(e),
        },
    }
}

/// The model of a head or an error.
pub open spec fn head_model(r: Result<Head, String>) -> Result<HeadView, Seq<char>> {
    match r {
        Ok(head) => Ok(head@),
        Err(e) => Err(e@),
    }
}

/// Collects header lines.
fn collect(lines: &[outside::HeaderLine]) -> (r: Headers)
    ensures
        r@ == headers_of(outside::header_lines(lines@)),
{
    let mut pairs: Vec<(String, String)> = Vec::new();
    let ghost all = outside::header_lines(lines@).map_values(
        |line: outside::HeaderLineView| header_pair(line),
    );
    let mut i: usize = 0;
    while i < lines.len()
        invariant
            i <= lines@.len(),
            all == outside::header_lines(lines@).map_values(
                |line: outside::HeaderLineView| header_pair(line),
            ),
            textmap::pairs_of(pairs@) =~= all.take(i as int),
        decreases lines@.len() - i,
    {
        let name = text::lower_text(lines[i].name.as_str());
        let decoded = outside::decode_lossy(&lines[i].value);
        let chars = text::chars_of(decoded.as_str());
        let value = text::text_of(text::trim_chars(&chars));
        let ghost before = pairs@;
        pairs.push((name, value));
        assert(textmap::pairs_of(pairs@) =~= textmap::pairs_of(before).push((name@, value@)));
        assert(all[i as int] == header_pair(lines@[i as int]@));
        i += 1;
    }
    assert(textmap::pairs_of(pairs@) =~= all);
    TextMap::from_pairs(pairs)
}

/// Writes a protocol version.
fn format_version(minor: Option<u8>) -> (r: String)
    ensures
        r@ == version_of(minor),
{
    let mut r = "HTTP/1.".to_owned();
    let n: u8 = match minor {
        Some(n) => n,
        None => 1,
    };
    text::push_decimal(&mut r, n as u128);
    r
}

/// A string, or the empty string where there is none.
fn unwrap_or_empty(part: Option<String>) -> (r: String)
    ensures
        r@ == or_empty(text::opt_text(part)),
{
    match part {
        Some(s) => s,
        None => String::new(),
    }
}

/// Turns what the response parser found into a head.
fn choose_response(parsed: Result<Option<outside::ResponseParts>, String>) -> (r: Result<
    Head,
    String,
>)
    ensures
        head_model(r) == response_of(outside::parsed_response(parsed)),
{
    match parsed {
        Err(e) => Err(e),
        Ok(None) => Err("incomplete or invalid HTTP/1 header".to_owned()),
        Ok(Some(parts)) => match parts.code {
            None => Err("response has no status".to_owned()),
            Some(status) => Ok(
                Head::Response(
                    ResponseHead {
                        status,
                        reason: unwrap_or_empty(parts.reason),
                        version: format_version(parts.version),
                        headers: collect(&parts.headers),
                    },
                ),
            ),
        },
    }
}

/// Decides between what the request parser and the response parser found in one buffer.
pub fn choose_head(
    request: Result<Option<outside::RequestParts>, String>,
    response: Result<Option<outside::ResponseParts>, String>,
) -> (r: Result<Head, String>)
    ensures
        head_model(r) == head_of(
            outside::parsed_request(request),
            outside::parsed_response(response),
        ),
{
    match request {
        Ok(Some(parts)) => match parts.method {
            Some(method) => Ok(
                Head::Request(
                    RequestHead {
                        method,
                        target: unwrap_or_empty(parts.path),
                        version: format_version(parts.version),
                        headers: collect(&parts.headers),
                    },
                ),
            ),
            None => choose_response(response),
        },
        Ok(None) => choose_response(response),
        Err(e) => match choose_response(response) {
            Ok(head) => Ok(head),
            Err(_) => Err(e),
        },
    }
}

/// Parses the head of a request or a response.
pub fn parse_head(bytes: &[u8]) -> (r: Result<Head, String>)
    ensures
        head_model(r) == head_of(
            outside::http_request(bytes@, MAX_HEADERS as nat),
            outside::http_response(bytes@, MAX_HEADERS as nat),
        ),
{
    choose_head(
        outside::parse_request_parts(bytes, MAX_HEADERS),
        outside::parse_response_parts(bytes, MAX_HEADERS),
    )
}

// ---------------------------------------------------------------------------------------------
// Framing
// ---------------------------------------------------------------------------------------------

/// The empty line that closes a head ends at position `end`.
pub open spec fn ends_head(buffer: Seq<u8>, end: int) -> bool {
    4 <= end <= buffer.len() && buffer.subrange(end - 4, end) == seq![13u8, 10u8, 13u8, 10u8]
}

/// Finds the end of a head: the position behind its first empty line.
pub fn header_end(buffer: &[u8]) -> (r: Option<usize>)
    ensures
        match r {
            Some(end) => ends_head(buffer@, end as int) && forall|k: int|
                0 <= k < end ==> !#[trigger] ends_head(buffer@, k),
            None => forall|k: int| !#[trigger] ends_head(buffer@, k),
        },
{
    let size: usize = buffer.len();
    let mut end: usize = 4;
    while end <= size
        invariant
            size == buffer@.len(),
            4 <= end,
            forall|k: int| 0 <= k < end ==> !#[trigger] ends_head(buffer@, k),
        decreases size + 1 - end,
    {
        if buffer[end - 4] == 13 && buffer[end - 3] == 10 && buffer[end - 2] == 13 && buffer[end
            - 1] == 10 {
            assert(buffer@.subrange(end - 4, end as int) =~= seq![13u8, 10u8, 13u8, 10u8]);
            return Some(end);
        }
        assert(!ends_head(buffer@, end as int)) by {
            let window = buffer@.subrange(end - 4, end as int);
            assert(window[0] == buffer@[end - 4] && window[1] == buffer@[end - 3] && window[2]
                == buffer@[end - 2] && window[3] == buffer@[end - 1]);
        }
        if end == size {
            return None;
        }
        end += 1;
    }
    None
}

/// The body length that headers state, if it is a number.
pub open spec fn length_of(headers: HeadersView) -> Option<nat> {
    if headers.contains_key("content-length"@) {
        text::bounded_value(headers["content-length"@], 10, usize::MAX as nat)
    } else {
        None
    }
}

/// Reads the body length that headers state.
pub fn content_length(headers: &Headers) -> (r: Option<usize>)
    ensures
        match r {
            Some(n) => length_of(headers@) == Some(n as nat),
            None => length_of(headers@) is None,
        },
{
    match headers.get("content-length") {
        Some(value) => {
            let chars = text::chars_of(value.as_str());
            match text::parse_unsigned(&chars, 10, usize::MAX as u64) {
                Some(n) => Some(n as usize),
                None => None,
            }
        },
        None => None,
    }
}

/// Headers say that the body is chunked: one of the transfer codings is `chunked`.
pub open spec fn chunked(headers: HeadersView) -> bool {
    headers.contains_key("transfer-encoding"@) && exists|i: int|
        0 <= i < text::split(text::lower(headers["transfer-encoding"@]), ',').len() && text::trim(
            #[trigger] text::split(text::lower(headers["transfer-encoding"@]), ',')[i],
        ) == "chunked"@
}

/// Decides whether headers say that the body is chunked.
pub fn is_chunked(headers: &Headers) -> (r: bool)
    ensures
        r == chunked(headers@),
{
    match headers.get("transfer-encoding") {
        None => false,
        Some(value) => {
            let codings = text::lower_chars(value.as_str());
            let parts = text::split_chars(&codings, ',');
            let word = text::chars_of("chunked");
            let ghost pieces = text::split(text::lower(value@), ',');
            let mut i: usize = 0;
            while i < parts.len()
                invariant
                    i <= parts@.len(),
                    word@ == "chunked"@,
                    text::char_texts(parts@) == pieces,
                    headers@.contains_key("transfer-encoding"@),
                    pieces == text::split(text::lower(headers@["transfer-encoding"@]), ','),
                    forall|k: int|
                        0 <= k < i ==> text::trim(#[trigger] pieces[k]) != "chunked"@,
                decreases parts@.len() - i,
            {
                assert(pieces[i as int] == parts@[i as int]@);
                if text::chars_eq(text::trim_chars(&parts[i]), &word) {
                    return true;
                }
                i += 1;
            }
            assert(pieces.len() == parts@.len());
            false
        },
    }
}

} // verus!
