//! TLS handshakes as far as they pass unencrypted.
use crate::outside;
use crate::text;
use crate::wire;
use vstd::prelude::*;
use vstd::string::StringExecFns;

verus! {

/// What a ClientHello offers.
#[derive(Debug, Clone, PartialEq, Eq)]
pub struct ClientHello {
    pub sni: Option<String>,
    pub alpn: Vec<String>,
    pub tls_version: String,
    pub cipher_suites: Vec<String>,
}

/// Why a handshake cannot be read.
#[derive(Debug, Clone, Copy, PartialEq, Eq, Structural)]
pub enum TlsError {
    NotClientHello,
    TruncatedClientHello,
    Truncated,
    TruncatedHello,
    TruncatedCipherSuites,
    TruncatedCompression,
    TruncatedExtensions,
    BadExtensionLength,
    TruncatedRecord,
    TruncatedCertificateHandshake,
    TruncatedCertificateList,
    TruncatedLeafCertificate,
    NoCertificateHandshake,
}

impl TlsError {
    /// The error in words.
    pub open spec fn spec_message(self) -> Seq<char> {
        match self {
            TlsError::NotClientHello => "not a TLS ClientHello record"@,
            TlsError::TruncatedClientHello => "truncated ClientHello"@,
            TlsError::Truncated => "truncated"@,
            TlsError::TruncatedHello => "truncated hello"@,
            TlsError::TruncatedCipherSuites => "truncated cipher suites"@,
            TlsError::TruncatedCompression => "truncated compression"@,
            TlsError::TruncatedExtensions => "truncated extensions"@,
            TlsError::BadExtensionLength => "bad extension length"@,
            TlsError::TruncatedRecord => "truncated TLS record"@,
            TlsError::TruncatedCertificateHandshake => "truncated TLS Certificate handshake"@,
            TlsError::TruncatedCertificateList => "truncated certificate list"@,
            TlsError::TruncatedLeafCertificate => "truncated leaf certificate"@,
            TlsError::NoCertificateHandshake => "no TLS Certificate handshake"@,
        }
    }

    /// Says the error in words.
    pub fn message(self) -> (r: String)
        ensures
            r@ == self.spec_message(),
    {
        let words: &str = match self {
            TlsError::NotClientHello => "not a TLS ClientHello record",
            TlsError::TruncatedClientHello => "truncated ClientHello",
            TlsError::Truncated => "truncated",
            TlsError::TruncatedHello => "truncated hello",
            TlsError::TruncatedCipherSuites => "truncated cipher suites",
            TlsError::TruncatedCompression => "truncated compression",
            TlsError::TruncatedExtensions => "truncated extensions",
            TlsError::BadExtensionLength => "bad extension length",
            TlsError::TruncatedRecord => "truncated TLS record",
            TlsError::TruncatedCertificateHandshake => "truncated TLS Certificate handshake",
            TlsError::TruncatedCertificateList => "truncated certificate list",
            TlsError::TruncatedLeafCertificate => "truncated leaf certificate",
            TlsError::NoCertificateHandshake => "no TLS Certificate handshake",
        };
        words.to_owned()
    }
}

/// The model of a [`ClientHello`].
#[verifier::ext_equal]
pub struct ClientHelloView {
    pub sni: Option<Seq<char>>,
    pub alpn: Seq<Seq<char>>,
    pub tls_version: Seq<char>,
    pub cipher_suites: Seq<Seq<char>>,
}

impl View for ClientHello {
    type V = ClientHelloView;

    open spec fn view(&self) -> ClientHelloView {
        ClientHelloView {
            sni: text::opt_text(self.sni),
            alpn: text::texts(self.alpn@),
            tls_version: self.tls_version@,
            cipher_suites: text::texts(self.cipher_suites@),
        }
    }
}

// ---------------------------------------------------------------------------------------------
// ClientHello
// ---------------------------------------------------------------------------------------------

/// An extension: its type and its data.
pub type ExtensionView = (u16, Seq<u8>);

/// The extensions from `p` to `end`; fewer than four bytes at the end are ignored.
pub open spec fn extensions_at(record: Seq<u8>, p: int, end: int) -> Result<
    Seq<ExtensionView>,
    TlsError,
>
    decreases end - p,
{
    if p + 4 > end {
        Ok(Seq::empty())
    } else {
        let n = wire::be16(record, p + 2);
        if p + 4 + n > end {
            Err(TlsError::BadExtensionLength)
        } else {
            match extensions_at(record, p + 4 + n, end) {
                Ok(rest) => Ok(
                    seq![(wire::be16(record, p), record.subrange(p + 4, p + 4 + n))] + rest,
                ),
                Err(e) => Err(e),
            }
        }
    }
}

/// The host name that a server_name extension carries, if it is well formed and not empty.
pub open spec fn server_name(data: Seq<u8>) -> Option<Seq<u8>> {
    if data.len() >= 5 && wire::be16(data, 0) + 2 <= data.len() && data[2] == 0 && wire::be16(
        data,
        3,
    ) > 0 && 5 + wire::be16(data, 3) <= data.len() {
        Some(data.subrange(5, 5 + wire::be16(data, 3)))
    } else {
        None
    }
}

/// The protocol names from `q` on, up to the first that does not fit before `limit`.
pub open spec fn protocols_at(data: Seq<u8>, q: int, limit: int) -> Seq<Seq<u8>>
    decreases limit - q,
{
    if q >= limit || q + 1 + data[q] > limit {
        Seq::empty()
    } else {
        seq![data.subrange(q + 1, q + 1 + data[q])] + protocols_at(data, q + 1 + data[q], limit)
    }
}

/// The protocol names that a protocol negotiation extension lists.
pub open spec fn protocols(data: Seq<u8>) -> Seq<Seq<u8>> {
    if data.len() < 2 {
        Seq::empty()
    } else {
        let stated = 2 + wire::be16(data, 0);
        protocols_at(
            data,
            2,
            if stated <= data.len() {
                stated
            } else {
                data.len() as int
            },
        )
    }
}

/// The first version that a supported_versions extension lists.
pub open spec fn supported_version(data: Seq<u8>) -> Option<u16> {
    if data.len() > 0 && data[0] >= 2 && data[0] < data.len() {
        Some(wire::be16(data, 1))
    } else {
        None
    }
}

/// The texts of byte sequences.
pub open spec fn lossy_texts(parts: Seq<Seq<u8>>) -> Seq<Seq<char>> {
    parts.map_values(|part: Seq<u8>| outside::lossy(part))
}

/// What extensions say: the last usable host name, all protocol names in order, and the last
/// usable version.
pub struct OfferView {
    pub sni: Option<Seq<u8>>,
    pub alpn: Seq<Seq<u8>>,
    pub version: Option<u16>,
}

/// What a sequence of extensions says.
pub open spec fn offer_of(extensions: Seq<ExtensionView>) -> OfferView
    decreases extensions.len(),
{
    if extensions.len() == 0 {
        OfferView { sni: None, alpn: Seq::empty(), version: None }
    } else {
        let before = offer_of(extensions.drop_last());
        let (ty, data) = extensions.last();
        OfferView {
            sni: if ty == 0 && server_name(data) is Some {
                server_name(data)
            } else {
                before.sni
            },
            alpn: if ty == 16 {
                before.alpn + protocols(data)
            } else {
                before.alpn
            },
            version: if ty == 43 && supported_version(data) is Some {
                supported_version(data)
            } else {
                before.version
            },
        }
    }
}

/// A 16-bit code as `0x` and four hexadecimal digits.
pub open spec fn code_text(high: u8, low: u8) -> Seq<char> {
    "0x"@ + text::hex_byte(high) + text::hex_byte(low)
}

/// The name of a protocol version.
pub open spec fn version_text(version: u16) -> Seq<char> {
    if version == 0x0301 {
        "TLS 1.0"@
    } else if version == 0x0302 {
        "TLS 1.1"@
    } else if version == 0x0303 {
        "TLS 1.2"@
    } else if version == 0x0304 {
        "TLS 1.3"@
    } else {
        code_text((version / 256) as u8, (version % 256) as u8)
    }
}

/// The codes of `count` cipher suites from `p` on.
pub open spec fn suites_at(record: Seq<u8>, p: int, count: nat) -> Seq<Seq<char>> {
    Seq::new(count, |i: int| code_text(record[p + 2 * i], record[p + 2 * i + 1]))
}

/// Where the cipher suites are counted: behind the session identifier.
pub open spec fn suites_start(record: Seq<u8>) -> int {
    44 + record[43]
}

/// Where the compression methods are counted: behind the cipher suites.
pub open spec fn compression_start(record: Seq<u8>) -> int {
    suites_start(record) + 2 + wire::be16(record, suites_start(record))
}

/// Where the extensions are counted: behind the compression methods.
pub open spec fn extensions_start(record: Seq<u8>) -> int {
    compression_start(record) + 1 + record[compression_start(record)]
}

/// What is wrong with the frame of a ClientHello, if anything is.
pub open spec fn hello_fault(record: Seq<u8>) -> Option<TlsError> {
    if record.len() < 9 || record[0] != 22 || record[5] != 1 {
        Some(TlsError::NotClientHello)
    } else if record.len() < 9 + wire::be24(record, 6) {
        Some(TlsError::TruncatedClientHello)
    } else if record.len() < 11 {
        Some(TlsError::Truncated)
    } else if record.len() <= 43 {
        Some(TlsError::TruncatedHello)
    } else if record.len() < suites_start(record) + 2 {
        Some(TlsError::Truncated)
    } else if wire::be16(record, suites_start(record)) % 2 != 0 || compression_start(record)
        > record.len() {
        Some(TlsError::TruncatedCipherSuites)
    } else if compression_start(record) >= record.len() {
        Some(TlsError::TruncatedCompression)
    } else if record.len() < extensions_start(record) + 2 {
        Some(TlsError::Truncated)
    } else if extensions_start(record) + 2 + wire::be16(record, extensions_start(record))
        > record.len() {
        Some(TlsError::TruncatedExtensions)
    } else {
        None
    }
}

/// The extensions of a ClientHello whose frame is sound.
pub open spec fn hello_extensions(record: Seq<u8>) -> Result<Seq<ExtensionView>, TlsError> {
    let start = extensions_start(record);
    extensions_at(record, start + 2, start + 2 + wire::be16(record, start))
}

/// What a ClientHello offers, or why it cannot be read.
pub open spec fn client_hello(record: Seq<u8>) -> Result<ClientHelloView, TlsError> {
    match hello_fault(record) {
        Some(e) => Err(e),
        None => match hello_extensions(record) {
            Err(e) => Err(e),
            Ok(extensions) => {
                let offer = offer_of(extensions);
                let suites = suites_start(record);
                Ok(
                    ClientHelloView {
                        sni: match offer.sni {
                            Some(name) => Some(outside::lossy(name)),
                            None => None,
                        },
                        alpn: lossy_texts(offer.alpn),
                        tls_version: version_text(
                            match offer.version {
                                Some(version) => version,
                                None => wire::be16(record, 9),
                            },
                        ),
                        cipher_suites: suites_at(
                            record,
                            suites + 2,
                            (wire::be16(record, suites) / 2) as nat,
                        ),
                    },
                )
            },
        },
    }
}

/// Writes a 16-bit code.
fn format_code(high: u8, low: u8) -> (r: String)
    ensures
        r@ == code_text(high, low),
{
    let mut r = "0x".to_owned();
    text::push_hex_byte(&mut r, high);
    text::push_hex_byte(&mut r, low);
    r
}

/// Names a protocol version.
pub fn tls_version(version: u16) -> (r: String)
    ensures
        r@ == version_text(version),
{
    if version == 0x0301 {
        "TLS 1.0".to_owned()
    } else if version == 0x0302 {
        "TLS 1.1".to_owned()
    } else if version == 0x0303 {
        "TLS 1.2".to_owned()
    } else if version == 0x0304 {
        "TLS 1.3".to_owned()
    } else {
        format_code((version / 256) as u8, (version % 256) as u8)
    }
}

/// Reads a 16-bit integer that may lie beyond the end.
fn u16at(b: &[u8], p: usize) -> (r: Result<u16, TlsError>)
    ensures
        match r {
            Ok(n) => p + 2 <= b@.len() && n == wire::be16(b@, p as int),
            Err(e) => p + 2 > b@.len() && e == TlsError::Truncated,
        },
{
    let size: usize = b.len();
    if p >= size || size - p < 2 {
        Err(TlsError::Truncated)
    } else {
        Ok(wire::read_be16(b, p))
    }
}

/// Reads the host name of a server_name extension.
fn read_server_name(data: &[u8]) -> (r: Option<String>)
    ensures
        text::opt_text(r) == (match server_name(data@) {
            Some(name) => Some(outside::lossy(name)),
            None => None,
        }),
{
    let size: usize = data.len();
    if size < 5 {
        return None;
    }
    let list: usize = wire::read_be16(data, 0) as usize;
    if list > size - 2 || data[2] != 0 {
        return None;
    }
    let n: usize = wire::read_be16(data, 3) as usize;
    if n == 0 || n > size - 5 {
        return None;
    }
    Some(outside::decode_lossy(vstd::slice::slice_subrange(data, 5, 5 + n)))
}

/// Reads the protocol names of a protocol negotiation extension and appends them.
fn read_protocols(alpn: &mut Vec<String>, data: &[u8])
    ensures
        text::texts(final(alpn)@) == text::texts(old(alpn)@) + lossy_texts(protocols(data@)),
{
    let size: usize = data.len();
    let ghost start = text::texts(alpn@);
    if size < 2 {
        assert(start + lossy_texts(protocols(data@)) =~= start);
        return ;
    }
    let list: usize = wire::read_be16(data, 0) as usize;
    let limit: usize = if list <= size - 2 {
        2 + list
    } else {
        size
    };
    let mut q: usize = 2;
    while q < limit
        invariant_except_break
            size == data@.len(),
            size >= 2,
            q <= limit <= size,
            limit == (if 2 + wire::be16(data@, 0) <= size {
                2 + wire::be16(data@, 0)
            } else {
                size as int
            }),
            text::texts(alpn@) + lossy_texts(protocols_at(data@, q as int, limit as int)) == start
                + lossy_texts(protocols(data@)),
        ensures
            text::texts(alpn@) == start + lossy_texts(protocols(data@)),
        decreases limit - q,
    {
        let n: usize = data[q] as usize;
        if n >= limit - q {
            assert(lossy_texts(protocols_at(data@, q as int, limit as int)) =~= Seq::empty());
            assert(text::texts(alpn@) + Seq::<Seq<char>>::empty() =~= text::texts(alpn@));
            break;
        }
        let ghost before = alpn@;
        let name = outside::decode_lossy(vstd::slice::slice_subrange(data, q + 1, q + 1 + n));
        alpn.push(name);
        proof {
            let rest = protocols_at(data@, q + 1 + n, limit as int);
            let piece = data@.subrange(q + 1, q + 1 + n);
            assert(text::texts(alpn@) =~= text::texts(before).push(outside::lossy(piece)));
            assert(text::texts(alpn@) + lossy_texts(rest) =~= text::texts(before) + lossy_texts(
                seq![piece] + rest,
            ));
        }
        q = q + 1 + n;
        assert(q >= limit ==> lossy_texts(protocols_at(data@, q as int, limit as int))
            =~= Seq::empty());
        assert(text::texts(alpn@) + Seq::<Seq<char>>::empty() =~= text::texts(alpn@));
    }
}

/// Reads the first version of a supported_versions extension.
fn read_supported_version(data: &[u8]) -> (r: Option<u16>)
    ensures
        r == supported_version(data@),
{
    if data.len() > 0 && data[0] >= 2 && (data[0] as usize) < data.len() {
        Some(wire::read_be16(data, 1))
    } else {
        None
    }
}

/// Reads the codes of cipher suites.
fn read_suites(record: &[u8], p: usize, count: usize) -> (r: Vec<String>)
    requires
        p + 2 * count <= record@.len(),
    ensures
        text::texts(r@) == suites_at(record@, p as int, count as nat),
{
    let size: usize = record.len();
    let mut suites: Vec<String> = Vec::new();
    let mut i: usize = 0;
    while i < count
        invariant
            i <= count,
            size == record@.len(),
            p + 2 * count <= size,
            text::texts(suites@) =~= suites_at(record@, p as int, i as nat),
        decreases count - i,
    {
        let ghost before = suites@;
        let suite = format_code(record[p + 2 * i], record[p + 2 * i + 1]);
        suites.push(suite);
        assert(text::texts(suites@) =~= text::texts(before).push(suite@));
        assert(suites_at(record@, p as int, (i + 1) as nat) =~= suites_at(
            record@,
            p as int,
            i as nat,
        ).push(suite@));
        i += 1;
    }
    suites
}

/// What the extensions of a ClientHello say.
struct Offer {
    sni: Option<String>,
    alpn: Vec<String>,
    version: Option<u16>,
}

/// An offer holds what the model says.
spec fn offers(offer: Offer, model: OfferView) -> bool {
    &&& text::opt_text(offer.sni) == (match model.sni {
        Some(name) => Some(outside::lossy(name)),
        None => None,
    })
    &&& text::texts(offer.alpn@) == lossy_texts(model.alpn)
    &&& offer.version == model.version
}

/// What is found when `seen` was read and `found` comes next.
spec fn prepended(
    seen: Seq<ExtensionView>,
    found: Result<Seq<ExtensionView>, TlsError>,
) -> Result<Seq<ExtensionView>, TlsError> {
    match found {
        Ok(rest) => Ok(seen + rest),
        Err(e) => Err(e),
    }
}

/// Reads the extensions between two positions.
fn read_extensions(record: &[u8], start: usize, end: usize) -> (r: Result<Offer, TlsError>)
    requires
        start <= end <= record@.len(),
    ensures
        match extensions_at(record@, start as int, end as int) {
            Ok(extensions) => r matches Ok(offer) && offers(offer, offer_of(extensions)),
            Err(e) => r == Err::<Offer, TlsError>(e),
        },
{
    let size: usize = record.len();
    let mut offer = Offer { sni: None, alpn: Vec::new(), version: None };
    let ghost mut seen: Seq<ExtensionView> = Seq::empty();
    let mut p: usize = start;
    proof {
        assert(text::texts(offer.alpn@) =~= lossy_texts(Seq::empty()));
        if let Ok(rest) = extensions_at(record@, start as int, end as int) {
            assert(seen + rest =~= rest);
        }
    }
    while p <= end && end - p >= 4
        invariant
            size == record@.len(),
            p <= end <= size,
            offers(offer, offer_of(seen)),
            prepended(seen, extensions_at(record@, p as int, end as int)) == extensions_at(
                record@,
                start as int,
                end as int,
            ),
        decreases end - p,
    {
        let ty: u16 = wire::read_be16(record, p);
        let n: usize = wire::read_be16(record, p + 2) as usize;
        if n > end - p - 4 {
            return Err(TlsError::BadExtensionLength);
        }
        let data = vstd::slice::slice_subrange(record, p + 4, p + 4 + n);
        let ghost model = offer_of(seen);
        proof {
            let extension = (ty, data@);
            if let Ok(rest) = extensions_at(record@, p + 4 + n, end as int) {
                assert(seen.push(extension) + rest =~= seen + (seq![extension] + rest));
            }
            assert(seen.push(extension).drop_last() =~= seen);
            seen = seen.push(extension);
        }
        if ty == 0 {
            if let Some(name) = read_server_name(data) {
                offer.sni = Some(name);
            }
        }
        if ty == 16 {
            read_protocols(&mut offer.alpn, data);
            assert(lossy_texts(model.alpn + protocols(data@)) =~= lossy_texts(model.alpn)
                + lossy_texts(protocols(data@)));
        }
        if ty == 43 {
            if let Some(version) = read_supported_version(data) {
                offer.version = Some(version);
            }
        }
        p = p + 4 + n;
    }
    assert(seen + Seq::empty() =~= seen);
    Ok(offer)
}

/// A bounds-checked, intentionally partial TLS ClientHello parser for passive metadata extraction.
pub fn parse_client_hello(record: &[u8]) -> (r: Result<ClientHello, TlsError>)
    ensures
        match r {
            Ok(hello) => client_hello(record@) == Ok::<ClientHelloView, TlsError>(hello@),
            Err(e) => client_hello(record@) == Err::<ClientHelloView, TlsError>(e),
        },
{
    let size: usize = record.len();
    if size < 9 || record[0] != 22 || record[5] != 1 {
        return Err(TlsError::NotClientHello);
    }
    let hs_len: usize = wire::read_be24(record, 6);
    if size - 9 < hs_len {
        return Err(TlsError::TruncatedClientHello);
    }
    let legacy_version: u16 = match u16at(record, 9) {
        Ok(version) => version,
        Err(e) => {
            return Err(e);
        },
    };
    if size <= 43 {
        return Err(TlsError::TruncatedHello);
    }
    let p: usize = 44 + record[43] as usize;
    let suites: usize = match u16at(record, p) {
        Ok(n) => n as usize,
        Err(e) => {
            return Err(e);
        },
    };
    if suites % 2 != 0 || size - p - 2 < suites {
        return Err(TlsError::TruncatedCipherSuites);
    }
    let cipher_suites = read_suites(record, p + 2, suites / 2);
    let q: usize = p + 2 + suites;
    if q >= size {
        return Err(TlsError::TruncatedCompression);
    }
    let comp: usize = record[q] as usize;
    if size - q <= comp {
        return Err(TlsError::Truncated);
    }
    let x: usize = q + 1 + comp;
    let ext_len: usize = match u16at(record, x) {
        Ok(n) => n as usize,
        Err(e) => {
            return Err(e);
        },
    };
    if size - x - 2 < ext_len {
        return Err(TlsError::TruncatedExtensions);
    }
    match read_extensions(record, x + 2, x + 2 + ext_len) {
        Err(e) => Err(e),
        Ok(offer) => {
            let version: u16 = match offer.version {
                Some(version) => version,
                None => legacy_version,
            };
            Ok(
                ClientHello {
                    sni: offer.sni,
                    alpn: offer.alpn,
                    tls_version: tls_version(version),
                    cipher_suites,
                },
            )
        },
    }
}

// ---------------------------------------------------------------------------------------------
// Certificate
// ---------------------------------------------------------------------------------------------

/// The first certificate of a Certificate handshake message.
pub open spec fn leaf_of(message: Seq<u8>) -> Result<Seq<u8>, TlsError> {
    let n = wire::be24(message, 1);
    if 4 + n > message.len() {
        Err(TlsError::TruncatedCertificateHandshake)
    } else {
        let body = message.subrange(4, 4 + n);
        if body.len() < 3 || wire::be24(body, 0) < 3 || 3 + wire::be24(body, 0) > body.len() {
            Err(TlsError::TruncatedCertificateList)
        } else if wire::be24(body, 3) == 0 || 6 + wire::be24(body, 3) > body.len() {
            Err(TlsError::TruncatedLeafCertificate)
        } else {
            Ok(body.subrange(6, 6 + wire::be24(body, 3)))
        }
    }
}

/// The first certificate of the first record from `p` on that starts with a Certificate
/// handshake message.
pub open spec fn certificate_at(stream: Seq<u8>, p: int) -> Result<Seq<u8>, TlsError>
    decreases stream.len() - p,
{
    if p + 5 > stream.len() {
        Err(TlsError::NoCertificateHandshake)
    } else {
        let end = p + 5 + wire::be16(stream, p + 3);
        if end > stream.len() {
            Err(TlsError::TruncatedRecord)
        } else if stream[p] == 22 && end - p >= 12 && stream[p + 5] == 11 {
            leaf_of(stream.subrange(p + 5, end))
        } else {
            certificate_at(stream, end)
        }
    }
}

/// Takes the first certificate out of a Certificate handshake message.
fn read_leaf(record: &[u8]) -> (r: Result<Vec<u8>, TlsError>)
    requires
        record@.len() >= 7,
    ensures
        match r {
            Ok(der) => leaf_of(record@) == Ok::<Seq<u8>, TlsError>(der@),
            Err(e) => leaf_of(record@) == Err::<Seq<u8>, TlsError>(e),
        },
{
    let size: usize = record.len();
    let handshake_length: usize = wire::read_be24(record, 1);
    if size - 4 < handshake_length {
        return Err(TlsError::TruncatedCertificateHandshake);
    }
    let body = vstd::slice::slice_subrange(record, 4, 4 + handshake_length);
    if handshake_length < 3 {
        return Err(TlsError::TruncatedCertificateList);
    }
    let list_length: usize = wire::read_be24(body, 0);
    if list_length < 3 || handshake_length - 3 < list_length {
        return Err(TlsError::TruncatedCertificateList);
    }
    let certificate_length: usize = wire::read_be24(body, 3);
    if certificate_length == 0 || handshake_length - 6 < certificate_length {
        return Err(TlsError::TruncatedLeafCertificate);
    }
    Ok(
        vstd::slice::slice_to_vec(
            vstd::slice::slice_subrange(body, 6, 6 + certificate_length),
        ),
    )
}

/// Extracts the leaf DER certificate from an unencrypted TLS 1.0-1.2 Certificate
/// handshake. TLS 1.3 encrypts this handshake and intentionally returns no result.
pub fn parse_server_certificate(record_stream: &[u8]) -> (r: Result<Vec<u8>, TlsError>)
    ensures
        match r {
            Ok(der) => certificate_at(record_stream@, 0) == Ok::<Seq<u8>, TlsError>(der@),
            Err(e) => certificate_at(record_stream@, 0) == Err::<Seq<u8>, TlsError>(e),
        },
{
    let size: usize = record_stream.len();
    let mut p: usize = 0;
    while size - p >= 5
        invariant
            size == record_stream@.len(),
            p <= size,
            certificate_at(record_stream@, p as int) == certificate_at(record_stream@, 0),
        decreases size - p,
    {
        let record_length: usize = wire::read_be16(record_stream, p + 3) as usize;
        if size - p - 5 < record_length {
            return Err(TlsError::TruncatedRecord);
        }
        let end: usize = p + 5 + record_length;
        if record_stream[p] == 22 && record_length >= 7 && record_stream[p + 5] == 11 {
            return read_leaf(vstd::slice::slice_subrange(record_stream, p + 5, end));
        }
        p = end;
    }
    Err(TlsError::NoCertificateHandshake)
}

// ---------------------------------------------------------------------------------------------
// Laws
// ---------------------------------------------------------------------------------------------

proof fn lemma_extensions_of_longer_record(record: Seq<u8>, more: Seq<u8>, p: int, end: int)
    requires
        0 <= p,
        end <= record.len(),
    ensures
        extensions_at(record + more, p, end) == extensions_at(record, p, end),
    decreases end - p,
{
    let longer = record + more;
    if p + 4 <= end {
        let n = wire::be16(record, p + 2);
        assert(wire::be16(longer, p + 2) == n);
        assert(wire::be16(longer, p) == wire::be16(record, p));
        if p + 4 + n <= end {
            lemma_extensions_of_longer_record(record, more, p + 4 + n, end);
            assert(longer.subrange(p + 4, p + 4 + n) =~= record.subrange(p + 4, p + 4 + n));
        }
    }
}

/// What stands behind a ClientHello does not matter: a ClientHello that is read is read the same
/// with more bytes behind it.
pub proof fn bytes_behind_a_hello_do_not_matter(record: Seq<u8>, more: Seq<u8>)
    requires
        client_hello(record) is Ok,
    ensures
        client_hello(record + more) == client_hello(record),
{
    let longer = record + more;
    let suites = suites_start(record);
    assert(hello_fault(record) is None);
    assert(longer[43] == record[43]);
    assert(suites_start(longer) == suites);
    assert(wire::be16(longer, suites) == wire::be16(record, suites));
    assert(compression_start(longer) == compression_start(record));
    assert(extensions_start(longer) == extensions_start(record));
    let start = extensions_start(record);
    assert(wire::be16(longer, start) == wire::be16(record, start));
    lemma_extensions_of_longer_record(
        record,
        more,
        start + 2,
        start + 2 + wire::be16(record, start),
    );
    let count = (wire::be16(record, suites) / 2) as nat;
    let a = suites_at(longer, suites + 2, count);
    let b = suites_at(record, suites + 2, count);
    assert forall|i: int| 0 <= i < count implies #[trigger] a[i] == b[i] by {
        assert(suites + 2 + 2 * i + 1 < record.len());
    }
    assert(a =~= b);
}

/// A ClientHello that is cut off before the end that it states is refused.
pub proof fn cut_hellos_are_refused(record: Seq<u8>, length: int)
    requires
        0 <= length < 9 + wire::be24(record, 6),
        length <= record.len(),
    ensures
        client_hello(record.take(length)) is Err,
{
    let cut = record.take(length);
    if length >= 9 {
        assert(wire::be24(cut, 6) == wire::be24(record, 6));
    }
}

/// One whole record that does not start with a Certificate handshake message.
pub open spec fn other_record(record: Seq<u8>) -> bool {
    &&& record.len() >= 5
    &&& record.len() == 5 + wire::be16(record, 3)
    &&& !(record[0] == 22 && record.len() >= 12 && record[5] == 11)
}

proof fn lemma_certificate_behind(front: Seq<u8>, stream: Seq<u8>, p: int)
    requires
        0 <= p,
    ensures
        certificate_at(front + stream, front.len() + p) == certificate_at(stream, p),
    decreases stream.len() - p,
{
    let all = front + stream;
    let q = front.len() + p;
    if p + 5 <= stream.len() {
        assert(wire::be16(all, q + 3) == wire::be16(stream, p + 3));
        let end = p + 5 + wire::be16(stream, p + 3);
        if end <= stream.len() {
            assert(all[q] == stream[p]);
            if end - p >= 12 {
                assert(all[q + 5] == stream[p + 5]);
            }
            assert(all.subrange(q + 5, front.len() + end) =~= stream.subrange(p + 5, end));
            lemma_certificate_behind(front, stream, end);
        }
    }
}

/// Records before the one with the certificate are skipped.
pub proof fn other_records_are_skipped(record: Seq<u8>, stream: Seq<u8>)
    requires
        other_record(record),
    ensures
        certificate_at(record + stream, 0) == certificate_at(stream, 0),
{
    let all = record + stream;
    assert(wire::be16(all, 3) == wire::be16(record, 3));
    assert(all[0] == record[0]);
    lemma_certificate_behind(record, stream, 0);
}

/// What stands behind the record with the certificate does not matter.
pub proof fn bytes_behind_a_certificate_do_not_matter(stream: Seq<u8>, more: Seq<u8>, p: int)
    requires
        0 <= p,
        certificate_at(stream, p) is Ok,
    ensures
        certificate_at(stream + more, p) == certificate_at(stream, p),
    decreases stream.len() - p,
{
    let longer = stream + more;
    assert(p + 5 <= stream.len());
    assert(wire::be16(longer, p + 3) == wire::be16(stream, p + 3));
    let end = p + 5 + wire::be16(stream, p + 3);
    assert(end <= stream.len());
    assert(longer.subrange(p + 5, end) =~= stream.subrange(p + 5, end));
    if !(stream[p] == 22 && end - p >= 12 && stream[p + 5] == 11) {
        bytes_behind_a_certificate_do_not_matter(stream, more, end);
    }
}

} // verus!
