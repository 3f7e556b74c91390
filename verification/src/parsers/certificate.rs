//! Small X.509 metadata extractor used after a proxy TLS handshake.
use crate::outside;
use vstd::prelude::*;
use vstd::string::StringExecFns;

verus! {

/// What is reported of a certificate.
#[derive(Debug, Clone, PartialEq, Eq)]
pub struct CertificateSummary {
    pub subject: String,
    pub issuer: String,
    pub serial: String,
    pub not_after: String,
}

/// The model of a [`CertificateSummary`].
pub struct CertificateSummaryView {
    pub subject: Seq<char>,
    pub issuer: Seq<char>,
    pub serial: Seq<char>,
    pub not_after: Seq<char>,
}

impl View for CertificateSummary {
    type V = CertificateSummaryView;

    open spec fn view(&self) -> CertificateSummaryView {
        CertificateSummaryView {
            subject: self.subject@,
            issuer: self.issuer@,
            serial: self.serial@,
            not_after: self.not_after@,
        }
    }
}

/// The model of a summary or an error.
pub open spec fn summary_model(r: Result<CertificateSummary, String>) -> Result<
    CertificateSummaryView,
    Seq<char>,
> {
    match r {
        Ok(summary) => Ok(summary@),
        Err(e) => Err(e@),
    }
}

/// What is reported of a parsed certificate: its fields, provided nothing follows it.
pub open spec fn summary_of(
    parsed: Result<outside::CertificatePartsView, Seq<char>>,
) -> Result<CertificateSummaryView, Seq<char>> {
    match parsed {
        Err(e) => Err("invalid X.509 certificate: "@ + e),
        Ok(parts) => if parts.remaining.len() > 0 {
            Err("trailing data after X.509 certificate"@)
        } else {
            Ok(
                CertificateSummaryView {
                    subject: parts.subject,
                    issuer: parts.issuer,
                    serial: parts.serial,
                    not_after: parts.not_after,
                },
            )
        },
    }
}

/// Summarises a parsed certificate.
pub fn summarize(parsed: Result<outside::CertificateParts, String>) -> (r: Result<
    CertificateSummary,
    String,
>)
    ensures
        summary_model(r) == summary_of(outside::parsed_certificate(parsed)),
{
    match parsed {
        Err(e) => {
            let mut message = "invalid X.509 certificate: ".to_owned();
            message.append(e.as_str());
            Err(message)
        },
        Ok(parts) => {
            if parts.remaining.len() > 0 {
                return Err("trailing data after X.509 certificate".to_owned());
            }
            Ok(
                CertificateSummary {
                    subject: parts.subject,
                    issuer: parts.issuer,
                    serial: parts.serial,
                    not_after: parts.not_after,
                },
            )
        },
    }
}

/// Parses a certificate in DER and summarises it.
pub fn parse_certificate(der: &[u8]) -> (r: Result<CertificateSummary, String>)
    ensures
        summary_model(r) == summary_of(outside::x509_certificate(der@)),
{
    summarize(outside::parse_certificate_parts(der))
}

} // verus!
