//! The local certificate authority and the leaf certificates that it issues.
use crate::outside;
use crate::outside::{KeyUsage, LeafError, LeafErrorView, PathLimit, SubjectAttribute};
use crate::paths;
use crate::paths::FilePath;
use crate::text;
use vstd::prelude::*;
use vstd::string::StringExecFns;

verus! {

/// Where the certificate and the private key of the authority are kept.
#[derive(Debug, Clone)]
pub struct CaPaths {
    pub cert: FilePath,
    pub key: FilePath,
}

/// A new certificate authority: its certificate and its private key, in PEM.
#[derive(Debug)]
pub struct AuthorityPem {
    pub certificate: String,
    pub key: String,
}

/// A new leaf certificate: the certificate and its private key in PKCS #8, both in DER.
#[derive(Debug)]
pub struct LeafDer {
    pub certificate: Vec<u8>,
    pub key: Vec<u8>,
}

/// Why something cannot be done with certificates.
#[derive(Debug)]
pub enum CertError {
    /// There is an authority at this path.
    AlreadyExists(String),
    /// A path is not UTF-8.
    NonUtf8Path,
    /// The private key is not UTF-8.
    KeyNotText,
    /// The certificate is not UTF-8.
    CertificateNotText,
    /// The private key cannot be read, for this reason.
    ParseKey(String),
    /// The certificate cannot be read, for this reason.
    ParseCertificate(String),
    /// The subject of the certificate cannot be written into another.
    UnsupportedSubject,
    /// The authority cannot be made an issuer, for this reason.
    LoadIssuer(String),
    /// No certificate can be made, for this reason.
    Issue(String),
}

/// What removes an authority: the arguments of the `security` tool, and the files to delete.
#[derive(Debug)]
pub struct Removal {
    pub arguments: Vec<String>,
    pub files: Vec<FilePath>,
}

impl CertError {
    /// What the error says beyond its words, if it has an error below it.
    pub open spec fn spec_cause(self) -> Option<Seq<char>> {
        match self {
            CertError::ParseKey(reason) => Some(reason@),
            CertError::ParseCertificate(reason) => Some(reason@),
            CertError::LoadIssuer(reason) => Some(reason@),
            _ => None,
        }
    }

    /// Says what is below the error, if anything is.
    pub fn cause(&self) -> (r: Option<String>)
        ensures
            text::opt_text(r) == self.spec_cause(),
    {
        match self {
            CertError::ParseKey(reason) => Some(reason.clone()),
            CertError::ParseCertificate(reason) => Some(reason.clone()),
            CertError::LoadIssuer(reason) => Some(reason.clone()),
            _ => None,
        }
    }

    /// The error in words.
    pub open spec fn spec_message(self) -> Seq<char> {
        match self {
            CertError::AlreadyExists(path) => "CA already exists at "@ + path@
                + "; remove it first or choose another directory"@,
            CertError::NonUtf8Path => "non-UTF8 path"@,
            CertError::KeyNotText => "CA key is not UTF-8"@,
            CertError::CertificateNotText => "CA certificate is not UTF-8"@,
            CertError::ParseKey(_) => "parse CA key"@,
            CertError::ParseCertificate(_) => "parse CA certificate"@,
            CertError::LoadIssuer(_) => "load CA issuer"@,
            CertError::UnsupportedSubject => "unsupported CA subject"@,
            CertError::Issue(reason) => reason@,
        }
    }

    /// Says the error in words.
    pub fn message(&self) -> (r: String)
        ensures
            r@ == self.spec_message(),
    {
        match self {
            CertError::AlreadyExists(path) => {
                let mut r = "CA already exists at ".to_owned();
                r.append(path.as_str());
                r.append("; remove it first or choose another directory");
                r
            },
            CertError::NonUtf8Path => "non-UTF8 path".to_owned(),
            CertError::KeyNotText => "CA key is not UTF-8".to_owned(),
            CertError::CertificateNotText => "CA certificate is not UTF-8".to_owned(),
            CertError::ParseKey(_) => "parse CA key".to_owned(),
            CertError::ParseCertificate(_) => "parse CA certificate".to_owned(),
            CertError::LoadIssuer(_) => "load CA issuer".to_owned(),
            CertError::UnsupportedSubject => "unsupported CA subject".to_owned(),
            CertError::Issue(reason) => reason.clone(),
        }
    }
}

impl CaPaths {
    /// The paths of the authority in a directory.
    pub fn in_dir(dir: &FilePath) -> (r: Self)
        ensures
            r.cert@ == paths::joined(dir@, vstd::utf8::encode_utf8("netscope-ca.pem"@)),
            r.key@ == paths::joined(dir@, vstd::utf8::encode_utf8("netscope-ca-key.pem"@)),
    {
        CaPaths {
            cert: dir.join("netscope-ca.pem".as_bytes()),
            key: dir.join("netscope-ca-key.pem".as_bytes()),
        }
    }
}

/// The common name of the authority.
pub open spec fn authority_name() -> Seq<char> {
    "NetScope Local Inspection CA"@
}

/// What the key of the authority may be used for.
pub open spec fn authority_usages() -> Seq<KeyUsage> {
    seq![KeyUsage::CertificateSigning, KeyUsage::CrlSigning]
}

/// What making an authority can lead to, given the path of its certificate and whether its
/// certificate and its key exist already. The certificate is that of the key beside it: the key is
/// new, and the certificate is signed with it.
pub open spec fn authority_made(
    cert_path: Seq<u8>,
    cert_exists: bool,
    key_exists: bool,
    r: Result<AuthorityPem, CertError>,
) -> bool {
    match r {
        Ok(authority) => {
            &&& !cert_exists && !key_exists
            &&& outside::generated_outcome(Ok(authority.key@))
            &&& readable_key(authority.key@)
            &&& outside::authority_outcome(
                authority_name(),
                authority_usages(),
                PathLimit::Unlimited,
                authority.key@,
                Ok(authority.certificate@),
            )
            &&& readable_authority(authority.certificate@)
        },
        Err(CertError::AlreadyExists(path)) => (cert_exists || key_exists) && path@
            == outside::lossy(cert_path),
        Err(CertError::Issue(reason)) => {
            &&& !cert_exists && !key_exists
            &&& outside::generated_outcome(Err(reason@)) || exists|key: Seq<char>|
                {
                    &&& #[trigger] outside::generated_outcome(Ok(key))
                    &&& outside::authority_outcome(
                        authority_name(),
                        authority_usages(),
                        PathLimit::Unlimited,
                        key,
                        Err(reason@),
                    )
                }
        },
        Err(_) => false,
    }
}

/// The text can be read as a private key.
pub open spec fn readable_key(pem: Seq<char>) -> bool {
    exists|der: Seq<u8>| #[trigger] outside::key_outcome(pem, Ok(der))
}

/// The text is the certificate of an authority whose subject can be written into another.
pub open spec fn readable_authority(pem: Seq<char>) -> bool {
    outside::authority_subject(pem) matches Ok(subject) && outside::writable_subject(subject)
}

/// Makes an authority, unless there is one: given whether its certificate and its key exist
/// already. The caller creates the directory before and writes the files after.
pub fn generate_ca(paths: &CaPaths, cert_exists: bool, key_exists: bool) -> (r: Result<
    AuthorityPem,
    CertError,
>)
    ensures
        authority_made(paths.cert@, cert_exists, key_exists, r),
{
    if cert_exists || key_exists {
        return Err(CertError::AlreadyExists(paths.cert.display()));
    }
    let key = match outside::generated_key() {
        Ok(key) => key,
        Err(reason) => {
            return Err(CertError::Issue(reason));
        },
    };
    let usages: [KeyUsage; 2] = [KeyUsage::CertificateSigning, KeyUsage::CrlSigning];
    assert(usages@ =~= authority_usages());
    match outside::self_signed_authority(
        "NetScope Local Inspection CA",
        &usages,
        PathLimit::Unlimited,
        key.as_str(),
    ) {
        Ok(certificate) => Ok(AuthorityPem { certificate, key }),
        Err(reason) => Err(CertError::Issue(reason)),
    }
}

/// The arguments that make the system trust a certificate at the given path.
pub open spec fn trust_arguments(path: Seq<char>) -> Seq<Seq<char>> {
    seq![
        "add-trusted-cert"@,
        "-d"@,
        "-r"@,
        "trustRoot"@,
        "-k"@,
        "/Library/Keychains/System.keychain"@,
        path,
    ]
}

/// The arguments that make the system forget the authority.
pub open spec fn distrust_arguments() -> Seq<Seq<char>> {
    seq![
        "delete-certificate"@,
        "-c"@,
        authority_name(),
        "/Library/Keychains/System.keychain"@,
    ]
}

/// The arguments with which the `security` tool makes the system trust the authority.
pub fn install_ca(paths: &CaPaths) -> (r: Result<Vec<String>, CertError>)
    ensures
        match r {
            Ok(arguments) => vstd::utf8::valid_utf8(paths.cert@) && text::texts(arguments@)
                == trust_arguments(vstd::utf8::decode_utf8(paths.cert@)),
            Err(e) => !vstd::utf8::valid_utf8(paths.cert@) && e is NonUtf8Path,
        },
{
    match paths.cert.to_text() {
        Some(path) => {
            let mut arguments: Vec<String> = Vec::new();
            arguments.push("add-trusted-cert".to_owned());
            arguments.push("-d".to_owned());
            arguments.push("-r".to_owned());
            arguments.push("trustRoot".to_owned());
            arguments.push("-k".to_owned());
            arguments.push("/Library/Keychains/System.keychain".to_owned());
            arguments.push(path);
            assert(text::texts(arguments@) =~= trust_arguments(path@));
            Ok(arguments)
        },
        None => Err(CertError::NonUtf8Path),
    }
}

/// What removes the authority: the arguments with which the `security` tool makes the system
/// forget it, and its files.
pub fn remove_ca(paths: &CaPaths) -> (r: Removal)
    ensures
        text::texts(r.arguments@) == distrust_arguments(),
        r.files@.len() == 2,
        r.files@[0]@ == paths.cert@,
        r.files@[1]@ == paths.key@,
{
    let mut arguments: Vec<String> = Vec::new();
    arguments.push("delete-certificate".to_owned());
    arguments.push("-c".to_owned());
    arguments.push("NetScope Local Inspection CA".to_owned());
    arguments.push("/Library/Keychains/System.keychain".to_owned());
    assert(text::texts(arguments@) =~= distrust_arguments());
    let mut files: Vec<FilePath> = Vec::new();
    files.push(paths.cert.clone());
    files.push(paths.key.clone());
    Removal { arguments, files }
}

/// What issuing a leaf certificate can lead to, given the files of the authority and the host name.
/// The certificate is that of the key beside it: the key is new, and the certificate is signed for
/// it by the authority, with the host name as the only name and the common name.
pub open spec fn leaf_issued(
    ca_key_pem: Seq<u8>,
    ca_cert_pem: Seq<u8>,
    hostname: Seq<char>,
    r: Result<LeafDer, CertError>,
) -> bool {
    let key = vstd::utf8::decode_utf8(ca_key_pem);
    let certificate = vstd::utf8::decode_utf8(ca_cert_pem);
    let key_read = vstd::utf8::valid_utf8(ca_key_pem) && readable_key(key);
    let authority_read = key_read && vstd::utf8::valid_utf8(ca_cert_pem)
        && outside::authority_subject(certificate) is Ok;
    match r {
        Ok(leaf) => authority_read && readable_authority(certificate) && exists|
            leaf_key: Seq<char>,
        |
            {
                &&& #[trigger] outside::generated_outcome(Ok(leaf_key))
                &&& outside::key_outcome(leaf_key, Ok(leaf.key@))
                &&& outside::leaf_outcome(
                    key,
                    certificate,
                    seq![hostname],
                    hostname,
                    leaf_key,
                    Ok(leaf.certificate@),
                )
            },
        Err(CertError::KeyNotText) => !vstd::utf8::valid_utf8(ca_key_pem),
        Err(CertError::ParseKey(reason)) => vstd::utf8::valid_utf8(ca_key_pem)
            && outside::key_outcome(key, Err(reason@)),
        Err(CertError::CertificateNotText) => key_read && !vstd::utf8::valid_utf8(ca_cert_pem),
        Err(CertError::ParseCertificate(reason)) => key_read && vstd::utf8::valid_utf8(ca_cert_pem)
            && outside::authority_subject(certificate) == Err::<
            Seq<outside::SubjectAttributeView>,
            Seq<char>,
        >(reason@),
        Err(CertError::UnsupportedSubject) => authority_read && !readable_authority(certificate),
        Err(CertError::Issue(reason)) => authority_read && readable_authority(certificate) && (
        outside::generated_outcome(Err(reason@)) || exists|leaf_key: Seq<char>|
            {
                &&& #[trigger] outside::generated_outcome(Ok(leaf_key))
                &&& outside::key_outcome(leaf_key, Err(reason@)) || outside::leaf_outcome(
                    key,
                    certificate,
                    seq![hostname],
                    hostname,
                    leaf_key,
                    Err(LeafErrorView::Leaf(reason@)),
                )
            }),
        Err(CertError::LoadIssuer(reason)) => authority_read && readable_authority(certificate)
            && exists|leaf_key: Seq<char>|
            {
                &&& #[trigger] outside::generated_outcome(Ok(leaf_key))
                &&& outside::leaf_outcome(
                    key,
                    certificate,
                    seq![hostname],
                    hostname,
                    leaf_key,
                    Err(LeafErrorView::Issuer(reason@)),
                )
            },
        Err(_) => false,
    }
}

/// Decides whether an attribute of a subject can be written.
fn can_write(attribute: &SubjectAttribute) -> (r: bool)
    ensures
        r == outside::writable_attribute(attribute@),
{
    let type_fits = match &attribute.custom_type {
        Some(arcs) => arcs.len() >= 2 && arcs[0] < 3 && arcs[1] < 18446744073709551535 && (arcs[0]
            >= 2 || arcs[1] < 40),
        None => true,
    };
    let text_fits = match &attribute.printable {
        Some(s) => {
            let chars = text::chars_of(s.as_str());
            proof {
                text::lemma_first_index(s@, '?');
            }
            text::find_char(&chars, '?').is_none()
        },
        None => true,
    };
    type_fits && text_fits
}

/// Decides whether a subject can be written.
pub fn can_write_subject(subject: &Vec<SubjectAttribute>) -> (r: bool)
    ensures
        r == outside::writable_subject(outside::attribute_views(subject@)),
{
    let ghost views = outside::attribute_views(subject@);
    let mut i: usize = 0;
    while i < subject.len()
        invariant
            i <= subject@.len(),
            views == outside::attribute_views(subject@),
            forall|k: int| 0 <= k < i ==> outside::writable_attribute(#[trigger] views[k]),
        decreases subject@.len() - i,
    {
        assert(views[i as int] == subject@[i as int]@);
        if !can_write(&subject[i]) {
            return false;
        }
        i += 1;
    }
    true
}

/// Issues a leaf certificate for a host name, given the files of the authority.
pub fn issue_leaf(ca_key_pem: &[u8], ca_cert_pem: &[u8], hostname: &str) -> (r: Result<
    LeafDer,
    CertError,
>)
    ensures
        leaf_issued(ca_key_pem@, ca_cert_pem@, hostname@, r),
{
    let key = match outside::decode_strict(ca_key_pem) {
        Some(key) => key,
        None => {
            return Err(CertError::KeyNotText);
        },
    };
    if let Err(reason) = outside::read_key(key) {
        return Err(CertError::ParseKey(reason));
    }
    assert(readable_key(key@));
    let certificate = match outside::decode_strict(ca_cert_pem) {
        Some(certificate) => certificate,
        None => {
            return Err(CertError::CertificateNotText);
        },
    };
    match outside::read_authority(certificate) {
        Ok(subject) => {
            if !can_write_subject(&subject) {
                return Err(CertError::UnsupportedSubject);
            }
        },
        Err(reason) => {
            return Err(CertError::ParseCertificate(reason));
        },
    }
    let leaf_key = match outside::generated_key() {
        Ok(leaf_key) => leaf_key,
        Err(reason) => {
            return Err(CertError::Issue(reason));
        },
    };
    let leaf_key_der = match outside::read_key(leaf_key.as_str()) {
        Ok(der) => der,
        Err(reason) => {
            return Err(CertError::Issue(reason));
        },
    };
    let mut names: Vec<String> = Vec::new();
    names.push(hostname.to_owned());
    assert(text::texts(names@) =~= seq![hostname@]);
    match outside::signed_leaf(key, certificate, names, hostname, leaf_key.as_str()) {
        Ok(der) => Ok(LeafDer { certificate: der, key: leaf_key_der }),
        Err(LeafError::Issuer(reason)) => Err(CertError::LoadIssuer(reason)),
        Err(LeafError::Leaf(reason)) => Err(CertError::Issue(reason)),
    }
}

// ---------------------------------------------------------------------------------------------
// Laws
// ---------------------------------------------------------------------------------------------

/// An authority is made only where there is none: as soon as its certificate or its key exists,
/// making it is refused, with nothing to write.
pub proof fn authorities_are_made_once(
    cert_path: Seq<u8>,
    cert_exists: bool,
    key_exists: bool,
    r: Result<AuthorityPem, CertError>,
)
    requires
        authority_made(cert_path, cert_exists, key_exists, r),
    ensures
        r is Ok ==> !cert_exists && !key_exists,
        cert_exists || key_exists <==> r matches Err(CertError::AlreadyExists(_)),
{
}

/// The files of an authority that was made are never the reason why it issues no leaf: they are
/// texts, the certificate is read, and its subject can be written. Only keys and signatures can
/// fail, which rest on chance.
pub proof fn made_authorities_are_accepted(
    cert_path: Seq<u8>,
    authority: AuthorityPem,
    hostname: Seq<char>,
    r: Result<LeafDer, CertError>,
)
    requires
        authority_made(cert_path, false, false, Ok(authority)),
        leaf_issued(
            vstd::utf8::encode_utf8(authority.key@),
            vstd::utf8::encode_utf8(authority.certificate@),
            hostname,
            r,
        ),
    ensures
        r is Ok || r matches Err(CertError::ParseKey(_)) || r matches Err(CertError::LoadIssuer(_))
            || r matches Err(CertError::Issue(_)),
        readable_key(authority.key@),
{
    vstd::utf8::encode_utf8_valid_utf8(authority.key@);
    vstd::utf8::encode_utf8_decode_utf8(authority.key@);
    vstd::utf8::encode_utf8_valid_utf8(authority.certificate@);
    vstd::utf8::encode_utf8_decode_utf8(authority.certificate@);
}

} // verus!
