//! Promises about certificates: what an authority and its leaves are made for, and what the system
//! is asked to trust.
use crate::certs;
use crate::certs::{AuthorityPem, CertError, LeafDer};
use crate::outside;
use crate::outside::{KeyUsage, PathLimit};
use vstd::prelude::*;

verus! {

/// An authority that is made has the name of this program, a new key, and a certificate of that
/// key for signing certificates and revocation lists; a failure is that of the key or of the
/// signature.
pub proof fn authorities_sign_certificates(
    path: Seq<u8>,
    r: Result<AuthorityPem, CertError>,
)
    requires
        certs::authority_made(path, false, false, r),
    ensures
        r matches Ok(authority) ==> outside::generated_outcome(Ok(authority.key@))
            && outside::authority_outcome(
            "NetScope Local Inspection CA"@,
            seq![KeyUsage::CertificateSigning, KeyUsage::CrlSigning],
            PathLimit::Unlimited,
            authority.key@,
            Ok(authority.certificate@),
        ),
        r matches Err(e) ==> (e matches CertError::Issue(reason) && (outside::generated_outcome(
            Err(reason@),
        ) || exists|key: Seq<char>| #[trigger]
            outside::generated_outcome(Ok(key)) && outside::authority_outcome(
                "NetScope Local Inspection CA"@,
                seq![KeyUsage::CertificateSigning, KeyUsage::CrlSigning],
                PathLimit::Unlimited,
                key,
                Err(reason@),
            ))),
{
}

/// An authority that exists is refused with the path of its certificate.
pub proof fn existing_authorities_are_named(
    path: Seq<u8>,
    cert_exists: bool,
    key_exists: bool,
    r: Result<AuthorityPem, CertError>,
)
    requires
        certs::authority_made(path, cert_exists, key_exists, r),
        cert_exists || key_exists,
    ensures
        r matches Err(CertError::AlreadyExists(named)) && named@ == outside::lossy(path),
{
}

/// A leaf is issued for one host name: with that as its only name and as its common name, for a
/// new key that is handed over with it, and signed with the key and the certificate of the
/// authority.
pub proof fn leaves_are_issued_for_their_host(
    key: Seq<char>,
    certificate: Seq<char>,
    hostname: Seq<char>,
    leaf: LeafDer,
)
    requires
        certs::leaf_issued(
            vstd::utf8::encode_utf8(key),
            vstd::utf8::encode_utf8(certificate),
            hostname,
            Ok(leaf),
        ),
    ensures
        exists|leaf_key: Seq<char>|
            {
                &&& #[trigger] outside::generated_outcome(Ok(leaf_key))
                &&& outside::key_outcome(leaf_key, Ok(leaf.key@))
                &&& outside::leaf_outcome(
                    key,
                    certificate,
                    seq![hostname],
                    hostname,
                    leaf_key,
                    Ok(leaf.certificate@),
                )
            },
        exists|der: Seq<u8>| #[trigger] outside::key_outcome(key, Ok(der)),
        outside::authority_subject(certificate) is Ok,
{
    vstd::utf8::encode_utf8_decode_utf8(key);
    vstd::utf8::encode_utf8_decode_utf8(certificate);
}

/// Files that are no text, a key that is none, and a certificate that is none are refused, the key
/// first, each for that reason.
pub proof fn unreadable_authorities_issue_nothing(
    key: Seq<u8>,
    certificate: Seq<u8>,
    hostname: Seq<char>,
    r: Result<LeafDer, CertError>,
)
    requires
        certs::leaf_issued(key, certificate, hostname, r),
    ensures
        !vstd::utf8::valid_utf8(key) ==> r matches Err(CertError::KeyNotText),
        r matches Err(CertError::KeyNotText) ==> !vstd::utf8::valid_utf8(key),
        vstd::utf8::valid_utf8(key) && !vstd::utf8::valid_utf8(certificate) ==> r matches Err(
            CertError::CertificateNotText,
        ) || r matches Err(CertError::ParseKey(_)),
        r matches Err(CertError::CertificateNotText) ==> !vstd::utf8::valid_utf8(certificate),
        r matches Err(CertError::ParseKey(reason)) ==> outside::key_outcome(
            vstd::utf8::decode_utf8(key),
            Err(reason@),
        ),
        r matches Err(CertError::ParseCertificate(reason)) ==> outside::authority_subject(
            vstd::utf8::decode_utf8(certificate),
        ) == Err::<Seq<outside::SubjectAttributeView>, Seq<char>>(reason@),
{
}

/// An authority that can be read is refused exactly where its subject cannot be written into
/// another certificate; any other failure is that of a new key or of a signature.
pub proof fn unwritable_authorities_issue_nothing(
    key: Seq<char>,
    certificate: Seq<char>,
    hostname: Seq<char>,
    subject: Seq<outside::SubjectAttributeView>,
    der: Seq<u8>,
    r: Result<LeafDer, CertError>,
)
    requires
        certs::leaf_issued(
            vstd::utf8::encode_utf8(key),
            vstd::utf8::encode_utf8(certificate),
            hostname,
            r,
        ),
        outside::key_outcome(key, Ok(der)),
        outside::authority_subject(certificate) == Ok::<
            Seq<outside::SubjectAttributeView>,
            Seq<char>,
        >(subject),
    ensures
        !outside::writable_subject(subject) ==> r matches Err(CertError::UnsupportedSubject)
            || r matches Err(CertError::ParseKey(_)),
        r matches Err(CertError::UnsupportedSubject) ==> !outside::writable_subject(subject),
        r matches Err(CertError::LoadIssuer(reason)) ==> exists|leaf_key: Seq<char>| #[trigger]
            outside::generated_outcome(Ok(leaf_key)) && outside::leaf_outcome(
                key,
                certificate,
                seq![hostname],
                hostname,
                leaf_key,
                Err(outside::LeafErrorView::Issuer(reason@)),
            ),
        r matches Err(CertError::Issue(reason)) ==> outside::generated_outcome(Err(reason@))
            || exists|leaf_key: Seq<char>| #[trigger]
            outside::generated_outcome(Ok(leaf_key)) && (outside::key_outcome(
                leaf_key,
                Err(reason@),
            ) || outside::leaf_outcome(
                key,
                certificate,
                seq![hostname],
                hostname,
                leaf_key,
                Err(outside::LeafErrorView::Leaf(reason@)),
            )),
{
    vstd::utf8::encode_utf8_valid_utf8(key);
    vstd::utf8::encode_utf8_decode_utf8(key);
    vstd::utf8::encode_utf8_valid_utf8(certificate);
    vstd::utf8::encode_utf8_decode_utf8(certificate);
}

/// A subject can be written where each of its attributes can: where an object identifier of its
/// own has at least two parts, a first one of 0, 1 or 2, a second one that fits, below 40 behind 0
/// and 1, and where a PrintableString holds no question mark.
pub proof fn subjects_are_judged(subject: Seq<outside::SubjectAttributeView>)
    ensures
        outside::writable_subject(subject) == (forall|i: int|
            0 <= i < subject.len() ==> {
                let attribute = #[trigger] subject[i];
                &&& attribute.custom_type matches Some(arcs) ==> {
                    &&& arcs.len() >= 2
                    &&& arcs[0] == 0 || arcs[0] == 1 || arcs[0] == 2
                    &&& arcs[0] != 2 ==> arcs[1] <= 39
                    &&& arcs[1] + 80 < u64::MAX
                }
                &&& attribute.printable matches Some(s) ==> forall|k: int|
                    0 <= k < s.len() ==> #[trigger] s[k] != '?'
            }),
{
    let good = |attribute: outside::SubjectAttributeView|
        {
            &&& attribute.custom_type matches Some(arcs) ==> {
                &&& arcs.len() >= 2
                &&& arcs[0] == 0 || arcs[0] == 1 || arcs[0] == 2
                &&& arcs[0] != 2 ==> arcs[1] <= 39
                &&& arcs[1] + 80 < u64::MAX
            }
            &&& attribute.printable matches Some(s) ==> forall|k: int|
                0 <= k < s.len() ==> #[trigger] s[k] != '?'
        };
    assert forall|attribute: outside::SubjectAttributeView| #[trigger]
        good(attribute) == outside::writable_attribute(attribute) by {}
    if outside::writable_subject(subject) {
        assert forall|i: int| 0 <= i < subject.len() implies good(#[trigger] subject[i]) by {
            assert(outside::writable_attribute(subject[i]));
        }
    } else {
        let i = choose|i: int|
            0 <= i < subject.len() && !outside::writable_attribute(#[trigger] subject[i]);
        assert(!good(subject[i]));
    }
}

/// The system is asked to trust the certificate at a path as a root, in the keychain of the
/// system, and to forget it by its name in that keychain.
pub proof fn the_system_is_asked(path: Seq<char>)
    ensures
        certs::trust_arguments(path) == seq![
            "add-trusted-cert"@,
            "-d"@,
            "-r"@,
            "trustRoot"@,
            "-k"@,
            "/Library/Keychains/System.keychain"@,
            path,
        ],
        certs::distrust_arguments() == seq![
            "delete-certificate"@,
            "-c"@,
            "NetScope Local Inspection CA"@,
            "/Library/Keychains/System.keychain"@,
        ],
{
}

} // verus!
