//! Promises about errors: each is worded for its reason.
use crate::capture::decode::DecodeError;
use crate::certs::CertError;
use crate::hooks::RegistrationError;
use crate::parsers::dns::DnsError;
use crate::parsers::tls::TlsError;
use crate::proxy::message::ProxyError;
use vstd::prelude::*;

verus! {

/// An error in decoding a frame says which part of it is short, invalid or unsupported.
pub proof fn frame_errors_are_worded()
    ensures
        DecodeError::ShortFrame.spec_message() == "short Ethernet frame"@,
        DecodeError::ShortIpv4.spec_message() == "short IPv4 packet"@,
        DecodeError::InvalidIpv4Header.spec_message() == "invalid IPv4 header"@,
        DecodeError::InvalidIpv4Length.spec_message() == "invalid IPv4 total length"@,
        DecodeError::ShortIpv6.spec_message() == "short IPv6 packet"@,
        DecodeError::TruncatedFragmentHeader.spec_message() == "truncated IPv6 fragment header"@,
        DecodeError::TruncatedExtensionHeader.spec_message() == "truncated IPv6 extension header"@,
        DecodeError::UnsupportedLink.spec_message() == "unsupported link protocol"@,
        DecodeError::UnsupportedTransport.spec_message() == "unsupported IP transport"@,
        DecodeError::ShortTransport.spec_message() == "short IP transport"@,
        DecodeError::ShortTcp.spec_message() == "short TCP packet"@,
        DecodeError::InvalidTcpHeader.spec_message() == "invalid TCP header"@,
        DecodeError::ShortUdp.spec_message() == "short UDP packet"@,
        DecodeError::ShortControlMessage.spec_message() == "short ICMP packet"@,
{
}

/// An error in reading a DNS message says which part of it is cut off or invalid.
pub proof fn name_errors_are_worded()
    ensures
        DnsError::ShortMessage.spec_message() == "short DNS message"@,
        DnsError::TruncatedQuestion.spec_message() == "truncated DNS question"@,
        DnsError::TruncatedAnswer.spec_message() == "truncated DNS answer"@,
        DnsError::TruncatedRdata.spec_message() == "truncated DNS rdata"@,
        DnsError::TruncatedName.spec_message() == "truncated DNS name"@,
        DnsError::TruncatedPointer.spec_message() == "truncated DNS pointer"@,
        DnsError::InvalidPointer.spec_message() == "invalid DNS compression pointer"@,
        DnsError::InvalidLabel.spec_message() == "invalid DNS label"@,
        DnsError::TruncatedLabel.spec_message() == "truncated DNS label"@,
{
}

/// An error in reading a TLS handshake says which part of it is cut off or missing.
pub proof fn handshake_errors_are_worded()
    ensures
        TlsError::NotClientHello.spec_message() == "not a TLS ClientHello record"@,
        TlsError::TruncatedClientHello.spec_message() == "truncated ClientHello"@,
        TlsError::Truncated.spec_message() == "truncated"@,
        TlsError::TruncatedHello.spec_message() == "truncated hello"@,
        TlsError::TruncatedCipherSuites.spec_message() == "truncated cipher suites"@,
        TlsError::TruncatedCompression.spec_message() == "truncated compression"@,
        TlsError::TruncatedExtensions.spec_message() == "truncated extensions"@,
        TlsError::BadExtensionLength.spec_message() == "bad extension length"@,
        TlsError::TruncatedRecord.spec_message() == "truncated TLS record"@,
        TlsError::TruncatedCertificateHandshake.spec_message() == "truncated TLS Certificate handshake"@,
        TlsError::TruncatedCertificateList.spec_message() == "truncated certificate list"@,
        TlsError::TruncatedLeafCertificate.spec_message() == "truncated leaf certificate"@,
        TlsError::NoCertificateHandshake.spec_message() == "no TLS Certificate handshake"@,
{
}

/// An error of the proxy says what was unexpected, missing or too long.
pub proof fn proxy_errors_are_worded()
    ensures
        ProxyError::ClientSentResponse.spec_message() == "client sent HTTP response"@,
        ProxyError::ExpectedRequest.spec_message() == "expected request"@,
        ProxyError::UpstreamSentRequest.spec_message() == "upstream sent a request"@,
        ProxyError::NoHost.spec_message() == "HTTP request has no Host header"@,
        ProxyError::InvalidPort.spec_message() == "invalid port"@,
        ProxyError::HeaderTooLong.spec_message() == "HTTP header exceeds 64 KiB"@,
        ProxyError::LineTooLong.spec_message() == "line too long"@,
        ProxyError::LineNotText.spec_message() == "chunk size line is not UTF-8"@,
        ProxyError::InvalidChunkSize.spec_message() == "invalid chunk size"@,
        ProxyError::UnexpectedReply.spec_message() == "unexpected reply"@,
        ProxyError::MissingAuthority.spec_message() == "--mitm requires --ca-dir containing netscope-ca.pem and netscope-ca-key.pem"@,
{
}

/// A refused registration says whether the message or the role was not understood.
pub proof fn registration_errors_are_worded()
    ensures
        RegistrationError::Unsupported.spec_message() == "unsupported hook registration"@,
        RegistrationError::UnknownRole.spec_message() == "role must be 'intercept' or 'observe'"@,
{
}

/// An error in making or using an authority says what is in the way, names the certificate that
/// exists already, and keeps the reason below it apart.
pub proof fn authority_errors_are_worded(text: String)
    ensures
        CertError::AlreadyExists(text).spec_message() == "CA already exists at "@ + text@
            + "; remove it first or choose another directory"@,
        CertError::NonUtf8Path.spec_message() == "non-UTF8 path"@,
        CertError::KeyNotText.spec_message() == "CA key is not UTF-8"@,
        CertError::CertificateNotText.spec_message() == "CA certificate is not UTF-8"@,
        CertError::ParseKey(text).spec_message() == "parse CA key"@,
        CertError::ParseCertificate(text).spec_message() == "parse CA certificate"@,
        CertError::LoadIssuer(text).spec_message() == "load CA issuer"@,
        CertError::UnsupportedSubject.spec_message() == "unsupported CA subject"@,
        CertError::Issue(text).spec_message() == text@,
        CertError::ParseKey(text).spec_cause() == Some(text@),
        CertError::ParseCertificate(text).spec_cause() == Some(text@),
        CertError::LoadIssuer(text).spec_cause() == Some(text@),
        CertError::Issue(text).spec_cause() is None,
        CertError::AlreadyExists(text).spec_cause() is None,
        CertError::NonUtf8Path.spec_cause() is None,
{
}

} // verus!
