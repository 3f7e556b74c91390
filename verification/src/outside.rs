//! What the library takes from other crates and from parts of the standard library that have no
//! specification of their own. Nothing in this file is proved: each contract is what the called
//! function documents or its source shows.
use crate::text;
use base64::Engine;
use vstd::prelude::*;

verus! {

// ---------------------------------------------------------------------------------------------
// UTF-8
// ---------------------------------------------------------------------------------------------

/// The text that `String::from_utf8_lossy` makes of a byte sequence that is not UTF-8.
pub uninterp spec fn utf8_repaired(bytes: Seq<u8>) -> Seq<char>;

/// The text of a byte sequence: valid UTF-8 as it stands, other bytes with replacement
/// characters.
pub open spec fn lossy(bytes: Seq<u8>) -> Seq<char> {
    if vstd::utf8::valid_utf8(bytes) {
        vstd::utf8::decode_utf8(bytes)
    } else {
        utf8_repaired(bytes)
    }
}

/// `String::from_utf8_lossy`: valid UTF-8 is decoded as it stands, and other bytes give a text
/// that depends on them alone.
#[verifier::external_body]
pub(crate) fn decode_lossy(bytes: &[u8]) -> (r: String)
    ensures
        r@ == (if vstd::utf8::valid_utf8(bytes@) {
            vstd::utf8::decode_utf8(bytes@)
        } else {
            utf8_repaired(bytes@)
        }),
{
    String::from_utf8_lossy(bytes).into_owned()
}

/// `std::str::from_utf8`: the text of valid UTF-8, and nothing for other bytes.
#[verifier::external_body]
pub(crate) fn decode_strict(bytes: &[u8]) -> (r: Option<&str>)
    ensures
        match r {
            Some(s) => vstd::utf8::valid_utf8(bytes@) && s@ == vstd::utf8::decode_utf8(bytes@),
            None => !vstd::utf8::valid_utf8(bytes@),
        },
{
    std::str::from_utf8(bytes).ok()
}

// ---------------------------------------------------------------------------------------------
// hex
// ---------------------------------------------------------------------------------------------

/// `hex::encode`: two lower-case digits for each byte, in order.
#[verifier::external_body]
pub(crate) fn hex_encode(bytes: &[u8]) -> (r: String)
    ensures
        r@ == text::hex_text(bytes@),
{
    hex::encode(bytes)
}

// ---------------------------------------------------------------------------------------------
// base64
// ---------------------------------------------------------------------------------------------

/// The text that the standard base64 engine writes for a byte sequence.
pub uninterp spec fn base64_text(bytes: Seq<u8>) -> Seq<char>;

/// The bytes that the standard base64 engine reads from a text, if it accepts the text.
pub uninterp spec fn base64_bytes(s: Seq<char>) -> Option<Seq<u8>>;

/// `STANDARD.encode` of base64, whose result `STANDARD.decode` turns back into the same bytes.
/// The encoding must fit in memory, beyond which the engine panics.
#[verifier::external_body]
pub(crate) fn base64_encode(bytes: &[u8]) -> (r: String)
    requires
        4 * ((bytes@.len() + 2) / 3) <= isize::MAX,
    ensures
        r@ == base64_text(bytes@),
        base64_bytes(r@) == Some(bytes@),
{
    base64::engine::general_purpose::STANDARD.encode(bytes)
}

/// `STANDARD.decode` of base64.
#[verifier::external_body]
pub(crate) fn base64_decode(s: &str) -> (r: Option<Vec<u8>>)
    ensures
        match r {
            Some(bytes) => base64_bytes(s@) == Some(bytes@),
            None => base64_bytes(s@) is None,
        },
{
    base64::engine::general_purpose::STANDARD.decode(s).ok()
}

// ---------------------------------------------------------------------------------------------
// httparse
// ---------------------------------------------------------------------------------------------

/// A header line as it was received: its name, and its value without the line end.
pub struct HeaderLine {
    pub name: String,
    pub value: Vec<u8>,
}

/// The model of a [`HeaderLine`].
pub struct HeaderLineView {
    pub name: Seq<char>,
    pub value: Seq<u8>,
}

impl View for HeaderLine {
    type V = HeaderLineView;

    open spec fn view(&self) -> HeaderLineView {
        HeaderLineView { name: self.name@, value: self.value@ }
    }
}

/// The models of a sequence of header lines.
pub open spec fn header_lines(lines: Seq<HeaderLine>) -> Seq<HeaderLineView> {
    Seq::new(lines.len(), |i: int| lines[i]@)
}

/// The parts of a complete request head.
pub struct RequestParts {
    pub method: Option<String>,
    pub path: Option<String>,
    pub version: Option<u8>,
    pub headers: Vec<HeaderLine>,
}

/// The model of [`RequestParts`].
pub struct RequestPartsView {
    pub method: Option<Seq<char>>,
    pub path: Option<Seq<char>>,
    pub version: Option<u8>,
    pub headers: Seq<HeaderLineView>,
}

impl View for RequestParts {
    type V = RequestPartsView;

    open spec fn view(&self) -> RequestPartsView {
        RequestPartsView {
            method: text::opt_text(self.method),
            path: text::opt_text(self.path),
            version: self.version,
            headers: header_lines(self.headers@),
        }
    }
}

/// The parts of a complete response head.
pub struct ResponseParts {
    pub code: Option<u16>,
    pub reason: Option<String>,
    pub version: Option<u8>,
    pub headers: Vec<HeaderLine>,
}

/// The model of [`ResponseParts`].
pub struct ResponsePartsView {
    pub code: Option<u16>,
    pub reason: Option<Seq<char>>,
    pub version: Option<u8>,
    pub headers: Seq<HeaderLineView>,
}

impl View for ResponseParts {
    type V = ResponsePartsView;

    open spec fn view(&self) -> ResponsePartsView {
        ResponsePartsView {
            code: self.code,
            reason: text::opt_text(self.reason),
            version: self.version,
            headers: header_lines(self.headers@),
        }
    }
}

/// The model of what a head parser returns: the parts of a complete head, nothing for an
/// incomplete one, or the text of the error.
pub open spec fn parsed_request(r: Result<Option<RequestParts>, String>) -> Result<
    Option<RequestPartsView>,
    Seq<char>,
> {
    match r {
        Ok(Some(parts)) => Ok(Some(parts@)),
        Ok(None) => Ok(None),
        Err(e) => Err(e@),
    }
}

/// The model of what a head parser returns, for responses.
pub open spec fn parsed_response(r: Result<Option<ResponseParts>, String>) -> Result<
    Option<ResponsePartsView>,
    Seq<char>,
> {
    match r {
        Ok(Some(parts)) => Ok(Some(parts@)),
        Ok(None) => Ok(None),
        Err(e) => Err(e@),
    }
}

/// What `httparse::Request::parse` finds in a buffer with room for `limit` headers.
pub uninterp spec fn http_request(bytes: Seq<u8>, limit: nat) -> Result<
    Option<RequestPartsView>,
    Seq<char>,
>;

/// What `httparse::Response::parse` finds in a buffer with room for `limit` headers.
pub uninterp spec fn http_response(bytes: Seq<u8>, limit: nat) -> Result<
    Option<ResponsePartsView>,
    Seq<char>,
>;

/// `httparse::Request::parse` with room for `limit` headers: the fields of a complete request
/// head, nothing for a partial one, or the error in words. The room must fit in memory.
#[verifier::external_body]
pub(crate) fn parse_request_parts(bytes: &[u8], limit: usize) -> (r: Result<
    Option<RequestParts>,
    String,
>)
    requires
        limit <= 0xffff,
    ensures
        parsed_request(r) == http_request(bytes@, limit as nat),
{
    let mut lines = vec![httparse::EMPTY_HEADER; limit];
    let mut request = httparse::Request::new(&mut lines);
    match request.parse(bytes) {
        Ok(httparse::Status::Complete(_)) => Ok(Some(RequestParts {
            method: request.method.map(|s| s.to_owned()),
            path: request.path.map(|s| s.to_owned()),
            version: request.version,
            headers: request.headers.iter().map(
                |h| HeaderLine { name: h.name.to_owned(), value: h.value.to_vec() }).collect(),
        })),
        Ok(httparse::Status::Partial) => Ok(None),
        Err(error) => Err(error.to_string()),
    }
}

/// `httparse::Response::parse` with room for `limit` headers: the fields of a complete response
/// head, nothing for a partial one, or the error in words. The room must fit in memory.
#[verifier::external_body]
pub(crate) fn parse_response_parts(bytes: &[u8], limit: usize) -> (r: Result<
    Option<ResponseParts>,
    String,
>)
    requires
        limit <= 0xffff,
    ensures
        parsed_response(r) == http_response(bytes@, limit as nat),
{
    let mut lines = vec![httparse::EMPTY_HEADER; limit];
    let mut response = httparse::Response::new(&mut lines);
    match response.parse(bytes) {
        Ok(httparse::Status::Complete(_)) => Ok(Some(ResponseParts {
            code: response.code,
            reason: response.reason.map(|s| s.to_owned()),
            version: response.version,
            headers: response.headers.iter().map(
                |h| HeaderLine { name: h.name.to_owned(), value: h.value.to_vec() }).collect(),
        })),
        Ok(httparse::Status::Partial) => Ok(None),
        Err(error) => Err(error.to_string()),
    }
}

// ---------------------------------------------------------------------------------------------
// x509-parser
// ---------------------------------------------------------------------------------------------

/// The fields of a certificate that a summary needs, and the bytes that follow the certificate.
pub struct CertificateParts {
    pub remaining: Vec<u8>,
    pub subject: String,
    pub issuer: String,
    pub serial: String,
    pub not_after: String,
}

/// The model of [`CertificateParts`].
pub struct CertificatePartsView {
    pub remaining: Seq<u8>,
    pub subject: Seq<char>,
    pub issuer: Seq<char>,
    pub serial: Seq<char>,
    pub not_after: Seq<char>,
}

impl View for CertificateParts {
    type V = CertificatePartsView;

    open spec fn view(&self) -> CertificatePartsView {
        CertificatePartsView {
            remaining: self.remaining@,
            subject: self.subject@,
            issuer: self.issuer@,
            serial: self.serial@,
            not_after: self.not_after@,
        }
    }
}

/// The model of what the certificate parser returns: the parts, or the text of the error.
pub open spec fn parsed_certificate(r: Result<CertificateParts, String>) -> Result<
    CertificatePartsView,
    Seq<char>,
> {
    match r {
        Ok(parts) => Ok(parts@),
        Err(e) => Err(e@),
    }
}

/// What `X509Certificate::from_der` finds at the start of a byte sequence.
pub uninterp spec fn x509_certificate(der: Seq<u8>) -> Result<CertificatePartsView, Seq<char>>;

/// `X509Certificate::from_der` of x509-parser: the subject, the issuer, the serial number and the
/// end of the validity as that crate displays them, with the bytes left over, or the error in
/// words.
#[verifier::external_body]
pub(crate) fn parse_certificate_parts(der: &[u8]) -> (r: Result<CertificateParts, String>)
    ensures
        parsed_certificate(r) == x509_certificate(der@),
{
    match x509_parser::prelude::FromDer::from_der(der) {
        Ok((remaining, certificate)) => {
            let certificate: x509_parser::certificate::X509Certificate = certificate;
            Ok(CertificateParts {
                remaining: remaining.to_vec(),
                subject: certificate.tbs_certificate.subject().to_string(),
                issuer: certificate.tbs_certificate.issuer().to_string(),
                serial: certificate.tbs_certificate.raw_serial_as_string(),
                not_after: certificate.tbs_certificate.validity().not_after.to_string(),
            })
        },
        Err(error) => Err(error.to_string()),
    }
}

// ---------------------------------------------------------------------------------------------
// rcgen
// ---------------------------------------------------------------------------------------------

/// What the key of a certificate may be used for.
#[derive(Debug, Clone, Copy, PartialEq, Eq, Structural)]
pub enum KeyUsage {
    CertificateSigning,
    CrlSigning,
}

/// How many authorities may stand between an authority and a leaf.
#[derive(Debug, Clone, Copy, PartialEq, Eq, Structural)]
pub enum PathLimit {
    Unlimited,
    AtMost(u8),
}

/// An attribute of a subject, as far as it matters for writing it: the object identifier of a type
/// that rcgen has no name for, and the text of a value that is a PrintableString.
pub struct SubjectAttribute {
    pub custom_type: Option<Vec<u64>>,
    pub printable: Option<String>,
}

/// The model of a [`SubjectAttribute`].
pub struct SubjectAttributeView {
    pub custom_type: Option<Seq<u64>>,
    pub printable: Option<Seq<char>>,
}

impl View for SubjectAttribute {
    type V = SubjectAttributeView;

    open spec fn view(&self) -> SubjectAttributeView {
        SubjectAttributeView {
            custom_type: match self.custom_type {
                Some(arcs) => Some(arcs@),
                None => None,
            },
            printable: text::opt_text(self.printable),
        }
    }
}

/// The models of a sequence of attributes.
pub open spec fn attribute_views(attributes: Seq<SubjectAttribute>) -> Seq<SubjectAttributeView> {
    Seq::new(attributes.len(), |i: int| attributes[i]@)
}

/// The model of a subject or an error.
pub open spec fn subject_model(r: Result<Vec<SubjectAttribute>, String>) -> Result<
    Seq<SubjectAttributeView>,
    Seq<char>,
> {
    match r {
        Ok(attributes) => Ok(attribute_views(attributes@)),
        Err(e) => Err(e@),
    }
}

/// The model of a text or an error.
pub open spec fn text_model(r: Result<String, String>) -> Result<Seq<char>, Seq<char>> {
    match r {
        Ok(s) => Ok(s@),
        Err(e) => Err(e@),
    }
}

/// The model of bytes or an error.
pub open spec fn bytes_model(r: Result<Vec<u8>, String>) -> Result<Seq<u8>, Seq<char>> {
    match r {
        Ok(bytes) => Ok(bytes@),
        Err(e) => Err(e@),
    }
}

/// Why a leaf is not signed: its issuer cannot be made, or the leaf itself cannot.
#[derive(Debug)]
pub enum LeafError {
    Issuer(String),
    Leaf(String),
}

/// The model of a [`LeafError`].
pub enum LeafErrorView {
    Issuer(Seq<char>),
    Leaf(Seq<char>),
}

impl View for LeafError {
    type V = LeafErrorView;

    open spec fn view(&self) -> LeafErrorView {
        match *self {
            LeafError::Issuer(reason) => LeafErrorView::Issuer(reason@),
            LeafError::Leaf(reason) => LeafErrorView::Leaf(reason@),
        }
    }
}

/// The model of a leaf or an error.
pub open spec fn leaf_model(r: Result<Vec<u8>, LeafError>) -> Result<Seq<u8>, LeafErrorView> {
    match r {
        Ok(bytes) => Ok(bytes@),
        Err(e) => Err(e@),
    }
}

/// The attribute can be written. An object identifier has two parts at least, and its first is 0,
/// 1 or 2, with a second below 40 behind 0 and 1. A question mark is no character of a
/// PrintableString to the writer, though it is one to the reader.
pub open spec fn writable_attribute(attribute: SubjectAttributeView) -> bool {
    &&& attribute.custom_type matches Some(arcs) ==> arcs.len() >= 2 && arcs[0] < 3 && arcs[1]
        < 18446744073709551535 && (arcs[0] < 2 ==> arcs[1] < 40)
    &&& attribute.printable matches Some(s) ==> !s.contains('?')
}

/// Every attribute of a subject can be written.
pub open spec fn writable_subject(attributes: Seq<SubjectAttributeView>) -> bool {
    forall|i: int| 0 <= i < attributes.len() ==> writable_attribute(#[trigger] attributes[i])
}

/// What is read of a subject that is a common name alone, in UTF-8.
pub open spec fn plain_subject() -> Result<Seq<SubjectAttributeView>, Seq<char>> {
    Ok(seq![SubjectAttributeView { custom_type: None, printable: None }])
}

/// A result that generating a private key can have: the key in PEM, or an error.
pub uninterp spec fn generated_outcome(result: Result<Seq<char>, Seq<char>>) -> bool;

/// A result that reading a private key can have: its PKCS #8 form in DER, or an error.
pub uninterp spec fn key_outcome(pem: Seq<char>, result: Result<Seq<u8>, Seq<char>>) -> bool;

/// The subject of the authority whose certificate `CertificateParams::from_ca_cert_pem` reads, or
/// its error.
pub uninterp spec fn authority_subject(pem: Seq<char>) -> Result<
    Seq<SubjectAttributeView>,
    Seq<char>,
>;

/// A result that signing an authority can have: its certificate in PEM, or an error. Given are its
/// common name, what its key may be used for, its path limit and its private key.
pub uninterp spec fn authority_outcome(
    common_name: Seq<char>,
    usages: Seq<KeyUsage>,
    limit: PathLimit,
    key: Seq<char>,
    result: Result<Seq<char>, Seq<char>>,
) -> bool;

/// A result that signing a leaf can have: its certificate in DER, or an error. Given are the
/// private key and the certificate of the authority, the names and the common name of the leaf, and
/// its private key.
pub uninterp spec fn leaf_outcome(
    authority_key: Seq<char>,
    authority_certificate: Seq<char>,
    names: Seq<Seq<char>>,
    common_name: Seq<char>,
    leaf_key: Seq<char>,
    result: Result<Seq<u8>, LeafErrorView>,
) -> bool;

/// `KeyPair::generate` of rcgen: a new private key in PEM, or the error in words. The key is
/// random: which one comes is left open. What `KeyPair::serialize_pem` writes,
/// `KeyPair::from_pem` can read.
#[verifier::external_body]
pub(crate) fn generated_key() -> (r: Result<String, String>)
    ensures
        generated_outcome(text_model(r)),
        r matches Ok(pem) ==> exists|der: Seq<u8>| #[trigger] key_outcome(pem@, Ok(der)),
{
    rcgen::KeyPair::generate().map(|key| key.serialize_pem()).map_err(|e| e.to_string())
}

/// `KeyPair::from_pem` of rcgen: the private key in PKCS #8 and DER, or the error in words if the
/// text is not accepted as a private key. Reading a key draws random numbers, which may fail: the
/// result is one of those that the text allows, and which one is left open.
#[verifier::external_body]
pub(crate) fn read_key(pem: &str) -> (r: Result<Vec<u8>, String>)
    ensures
        key_outcome(pem@, bytes_model(r)),
{
    rcgen::KeyPair::from_pem(pem).map(|key| key.serialize_der()).map_err(|e| e.to_string())
}

/// `CertificateParams::from_ca_cert_pem` of rcgen: the attributes of the subject of an authority,
/// or the error in words if the text is not accepted as the certificate of one.
#[verifier::external_body]
pub(crate) fn read_authority(pem: &str) -> (r: Result<Vec<SubjectAttribute>, String>)
    ensures
        subject_model(r) == authority_subject(pem@),
{
    let params = rcgen::CertificateParams::from_ca_cert_pem(pem).map_err(|e| e.to_string())?;
    Ok(params.distinguished_name.iter().map(|(kind, value)| SubjectAttribute {
        custom_type: match kind {
            rcgen::DnType::CustomDnType(arcs) => Some(arcs.clone()),
            _ => None,
        },
        printable: match value {
            rcgen::DnValue::PrintableString(s) => Some(s.as_str().to_owned()),
            _ => None,
        },
    }).collect())
}

/// `CertificateParams::self_signed` of rcgen: the certificate of an authority in PEM, with the
/// given common name, usages, path limit and private key, or the error in words. Signing draws
/// random numbers: the result is one of those that the arguments allow, and which one is left open.
/// `CertificateParams::from_ca_cert_pem` reads the certificate back, with a subject of the common
/// name alone.
#[verifier::external_body]
pub(crate) fn self_signed_authority(
    common_name: &str,
    usages: &[KeyUsage],
    limit: PathLimit,
    key: &str,
) -> (r: Result<String, String>)
    ensures
        authority_outcome(common_name@, usages@, limit, key@, text_model(r)),
        r matches Ok(pem) ==> authority_subject(pem@) == plain_subject(),
{
    let mut params = rcgen::CertificateParams::default();
    params.is_ca = rcgen::IsCa::Ca(match limit {
        PathLimit::Unlimited => rcgen::BasicConstraints::Unconstrained,
        PathLimit::AtMost(n) => rcgen::BasicConstraints::Constrained(n),
    });
    params.key_usages = usages.iter().map(|usage| match usage {
        KeyUsage::CertificateSigning => rcgen::KeyUsagePurpose::KeyCertSign,
        KeyUsage::CrlSigning => rcgen::KeyUsagePurpose::CrlSign,
    }).collect();
    params.distinguished_name.push(rcgen::DnType::CommonName, common_name);
    let key = rcgen::KeyPair::from_pem(key).map_err(|e| e.to_string())?;
    Ok(params.self_signed(&key).map_err(|e| e.to_string())?.pem())
}

/// `CertificateParams::signed_by` of rcgen: the certificate of a leaf in DER, for the given names,
/// common name and private key, signed by the authority with the given key and certificate, or the
/// error in words. Of an authority rcgen takes its subject and its key, so its subject is all that
/// is put into the issuer here. Signing draws random numbers: the result is one of those that the
/// arguments allow, and which one is left open. A subject that cannot be written makes rcgen panic.
#[verifier::external_body]
pub(crate) fn signed_leaf(
    authority_key: &str,
    authority_certificate: &str,
    names: Vec<String>,
    common_name: &str,
    leaf_key: &str,
) -> (r: Result<Vec<u8>, LeafError>)
    requires
        authority_subject(authority_certificate@) matches Ok(subject) ==> writable_subject(subject),
    ensures
        leaf_outcome(
            authority_key@,
            authority_certificate@,
            text::texts(names@),
            common_name@,
            leaf_key@,
            leaf_model(r),
        ),
{
    let failed = |e: rcgen::Error| LeafError::Leaf(e.to_string());
    let key = rcgen::KeyPair::from_pem(authority_key).map_err(failed)?;
    let mut authority = rcgen::CertificateParams::default();
    authority.distinguished_name = rcgen::CertificateParams::from_ca_cert_pem(
        authority_certificate).map_err(failed)?.distinguished_name;
    let issuer = authority.self_signed(&key).map_err(|e| LeafError::Issuer(e.to_string()))?;
    let mut params = rcgen::CertificateParams::new(names).map_err(failed)?;
    params.distinguished_name.push(rcgen::DnType::CommonName, common_name);
    let leaf_key = rcgen::KeyPair::from_pem(leaf_key).map_err(failed)?;
    let leaf = params.signed_by(&leaf_key, &issuer, &key).map_err(failed)?;
    Ok(leaf.der().to_vec())
}

} // verus!
