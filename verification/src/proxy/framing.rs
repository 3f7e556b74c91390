//! Where heads, lines and bodies end.
use crate::outside;
use crate::parsers::http1;
use crate::parsers::http1::ResponseHead;
use crate::proxy::message::ProxyError;
use crate::text;
use crate::textmap::Headers;
use vstd::prelude::*;

verus! {

// ---------------------------------------------------------------------------------------------
// Heads
// ---------------------------------------------------------------------------------------------

/// How many bytes a head may have.
pub const MAX_HEAD_BYTES: usize = 0x1_0000;

/// A head that arrives byte by byte.
#[derive(Debug)]
pub struct HeadReader {
    bytes: Vec<u8>,
}

/// What a byte leads to.
#[derive(Debug, Clone, Copy, PartialEq, Eq, Structural)]
pub enum ReadStep {
    /// More bytes are needed.
    More,
    /// There are too many bytes.
    TooLong,
    /// The last byte has arrived.
    Complete,
}

impl View for HeadReader {
    type V = Seq<u8>;

    closed spec fn view(&self) -> Seq<u8> {
        self.bytes@
    }
}

/// What the last byte of a head leads to.
pub open spec fn head_step(bytes: Seq<u8>) -> ReadStep {
    if bytes.len() > MAX_HEAD_BYTES {
        ReadStep::TooLong
    } else if exists|end: int| #[trigger] http1::ends_head(bytes, end) {
        ReadStep::Complete
    } else {
        ReadStep::More
    }
}

impl HeadReader {
    /// The head is not complete.
    #[verifier::type_invariant]
    spec fn open_so_far(self) -> bool {
        forall|end: int| !#[trigger] http1::ends_head(self.bytes@, end)
    }

    /// Nothing has arrived.
    pub fn new() -> (r: Self)
        ensures
            r@ == Seq::<u8>::empty(),
    {
        HeadReader { bytes: Vec::new() }
    }

    /// Takes a byte. Once a head was complete or too long, what it held is given up.
    pub fn push(&mut self, byte: u8) -> (r: (ReadStep, Vec<u8>))
        ensures
            r.0 == head_step(old(self)@.push(byte)),
            r.0 == ReadStep::More ==> final(self)@ == old(self)@.push(byte) && r.1@.len() == 0,
            r.0 != ReadStep::More ==> final(self)@.len() == 0 && r.1@ == old(self)@.push(byte),
    {
        proof {
            use_type_invariant(&*self);
        }
        let ghost before = self.bytes@;
        let mut bytes: Vec<u8> = Vec::new();
        std::mem::swap(&mut bytes, &mut self.bytes);
        bytes.push(byte);
        let n: usize = bytes.len();
        if n > MAX_HEAD_BYTES {
            return (ReadStep::TooLong, bytes);
        }
        proof {
            assert forall|end: int| 0 <= end < n implies !#[trigger] http1::ends_head(
                bytes@,
                end,
            ) by {
                if http1::ends_head(bytes@, end) {
                    assert(bytes@.subrange(end - 4, end) =~= before.subrange(end - 4, end));
                    assert(http1::ends_head(before, end));
                }
            }
        }
        let complete = n >= 4 && bytes[n - 4] == 13 && bytes[n - 3] == 10 && bytes[n - 2] == 13
            && bytes[n - 1] == 10;
        if complete {
            assert(bytes@.subrange(n - 4, n as int) =~= seq![13u8, 10u8, 13u8, 10u8]);
            assert(http1::ends_head(bytes@, n as int));
            (ReadStep::Complete, bytes)
        } else {
            assert(!http1::ends_head(bytes@, n as int)) by {
                if http1::ends_head(bytes@, n as int) {
                    let window = bytes@.subrange(n - 4, n as int);
                    assert(window[0] == bytes@[n - 4] && window[1] == bytes@[n - 3] && window[2]
                        == bytes@[n - 2] && window[3] == bytes@[n - 1]);
                }
            }
            self.bytes = bytes;
            (ReadStep::More, Vec::new())
        }
    }
}

// ---------------------------------------------------------------------------------------------
// Lines
// ---------------------------------------------------------------------------------------------

/// How many bytes a line may have.
pub const MAX_LINE_BYTES: usize = 8192;

/// A sequence of bytes ends with a line end.
pub open spec fn ends_line(bytes: Seq<u8>) -> bool {
    bytes.len() >= 2 && bytes[bytes.len() - 2] == 13 && bytes[bytes.len() - 1] == 10
}

/// What the last byte of a line leads to.
pub open spec fn line_step(bytes: Seq<u8>) -> ReadStep {
    if bytes.len() > MAX_LINE_BYTES {
        ReadStep::TooLong
    } else if ends_line(bytes) {
        ReadStep::Complete
    } else {
        ReadStep::More
    }
}

/// Says what the last byte of a line leads to.
pub fn check_line(bytes: &[u8]) -> (r: ReadStep)
    ensures
        r == line_step(bytes@),
{
    let n: usize = bytes.len();
    if n > MAX_LINE_BYTES {
        ReadStep::TooLong
    } else if n >= 2 && bytes[n - 2] == 13 && bytes[n - 1] == 10 {
        ReadStep::Complete
    } else {
        ReadStep::More
    }
}

// ---------------------------------------------------------------------------------------------
// Bodies
// ---------------------------------------------------------------------------------------------

/// How a body ends.
#[derive(Debug, Clone, Copy, PartialEq, Eq, Structural)]
pub enum Framing {
    /// There is no body.
    Empty,
    /// After a number of bytes.
    Length(usize),
    /// After the last chunk.
    Chunked,
    /// With the connection.
    UntilClose,
}

/// How the body of a request ends: a stated length counts before chunks.
pub open spec fn request_framing(headers: http1::HeadersView) -> Framing {
    match http1::length_of(headers) {
        Some(n) => Framing::Length(n as usize),
        None => if http1::chunked(headers) {
            Framing::Chunked
        } else {
            Framing::Empty
        },
    }
}

/// How the body of a response ends.
pub open spec fn response_framing(response: http1::ResponseHeadView) -> Framing {
    if (100 <= response.status < 200) || response.status == 204 || response.status == 304 {
        Framing::Empty
    } else {
        match request_framing(response.headers) {
            Framing::Empty => Framing::UntilClose,
            framing => framing,
        }
    }
}

/// Finds out how the body of a request ends.
pub fn frame_request(headers: &Headers) -> (r: Framing)
    ensures
        r == request_framing(headers@),
{
    match http1::content_length(headers) {
        Some(n) => Framing::Length(n),
        None => if http1::is_chunked(headers) {
            Framing::Chunked
        } else {
            Framing::Empty
        },
    }
}

/// Finds out how the body of a response ends.
pub fn frame_response(response: &ResponseHead) -> (r: Framing)
    ensures
        r == response_framing(response@),
{
    if (100 <= response.status && response.status < 200) || response.status == 204
        || response.status == 304 {
        return Framing::Empty;
    }
    match frame_request(&response.headers) {
        Framing::Empty => Framing::UntilClose,
        framing => framing,
    }
}

// ---------------------------------------------------------------------------------------------
// Chunks
// ---------------------------------------------------------------------------------------------

/// How far a chunked body is relayed.
#[derive(Debug, Clone, Copy, PartialEq, Eq, Structural)]
pub enum ChunkState {
    /// The line with the size of the next chunk comes next.
    Size,
    /// A line of the trailer comes next.
    Trailer,
}

/// What follows a line of a chunked body. The line itself is passed on before.
#[derive(Debug, Clone, Copy, PartialEq, Eq, Structural)]
pub enum ChunkStep {
    /// Pass on this many bytes, and then expect the line with the next size.
    Copy(u128),
    /// Expect a line of the trailer.
    Trailer,
    /// The body is complete.
    Finish,
}

/// The size that the line before a chunk states; what follows a semicolon does not count.
pub open spec fn chunk_size(line: Seq<u8>) -> Result<nat, ProxyError> {
    if !vstd::utf8::valid_utf8(line) {
        Err(ProxyError::LineNotText)
    } else {
        let stated = text::before_first(text::trim(vstd::utf8::decode_utf8(line)), ';');
        match text::bounded_value(stated, 16, usize::MAX as nat) {
            Some(n) => Ok(n),
            None => Err(ProxyError::InvalidChunkSize),
        }
    }
}

/// What follows a line of a chunked body: the bytes of a chunk with the line end behind them, the
/// trailer behind the chunk of size zero, and the end behind its empty line.
pub open spec fn chunk_step(state: ChunkState, line: Seq<u8>) -> Result<ChunkStep, ProxyError> {
    match state {
        ChunkState::Size => match chunk_size(line) {
            Ok(n) => if n == 0 {
                Ok(ChunkStep::Trailer)
            } else {
                Ok(ChunkStep::Copy((n + 2) as u128))
            },
            Err(e) => Err(e),
        },
        ChunkState::Trailer => if line == seq![13u8, 10u8] {
            Ok(ChunkStep::Finish)
        } else {
            Ok(ChunkStep::Trailer)
        },
    }
}

/// Reads the size that the line before a chunk states.
fn read_chunk_size(line: &[u8]) -> (r: Result<usize, ProxyError>)
    ensures
        match r {
            Ok(n) => chunk_size(line@) == Ok::<nat, ProxyError>(n as nat),
            Err(e) => chunk_size(line@) == Err::<nat, ProxyError>(e),
        },
{
    match outside::decode_strict(line) {
        None => Err(ProxyError::LineNotText),
        Some(s) => {
            let chars = text::chars_of(s);
            let inner = text::trim_chars(&chars);
            let stated = match text::find_char(inner, ';') {
                Some(i) => {
                    let part = vstd::slice::slice_subrange(inner, 0, i);
                    assert(part@ =~= inner@.take(i as int));
                    part
                },
                None => inner,
            };
            match text::parse_unsigned(stated, 16, usize::MAX as u64) {
                Some(n) => Ok(n as usize),
                None => Err(ProxyError::InvalidChunkSize),
            }
        },
    }
}

/// Says what follows a line of a chunked body.
pub fn relay_line(state: ChunkState, line: &[u8]) -> (r: Result<ChunkStep, ProxyError>)
    ensures
        r == chunk_step(state, line@),
{
    match state {
        ChunkState::Size => match read_chunk_size(line) {
            Ok(n) => if n == 0 {
                Ok(ChunkStep::Trailer)
            } else {
                Ok(ChunkStep::Copy(n as u128 + 2))
            },
            Err(e) => Err(e),
        },
        ChunkState::Trailer => {
            if line.len() == 2 && line[0] == 13 && line[1] == 10 {
                assert(line@ =~= seq![13u8, 10u8]);
                Ok(ChunkStep::Finish)
            } else {
                Ok(ChunkStep::Trailer)
            }
        },
    }
}

} // verus!
