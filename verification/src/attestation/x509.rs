//! Attestation certificates: the device's own, the one that issued it, and the
//! root.

use crate::attestation::error::{AttestationError, ParseFault};
use crate::attestation::extensions::{
    extract_pid, extract_vid, name_identifier, name_view, NameAttribute, NameAttributeView,
    ProductId, VendorId, MATTER_PID_OID, MATTER_VID_OID,
};
use crate::crypto::PublicKey;
use vstd::prelude::*;
use vstd::slice::slice_to_vec;
use x509_parser::extensions::ParsedExtension;
use x509_parser::prelude::{FromDer, X509Certificate};

verus! {

/// The parts of a certificate that attestation needs.
#[derive(Debug, Clone, PartialEq, Eq)]
pub struct CertificateParts {
    /// The number of the version; 2 stands for version 3.
    pub version: u32,
    /// The encoded object identifier of the signature algorithm.
    pub signature_algorithm: Vec<u8>,
    /// The attributes of the subject.
    pub subject: Vec<NameAttribute>,
    /// The DER of the subject.
    pub subject_raw: Vec<u8>,
    /// The DER of the issuer.
    pub issuer_raw: Vec<u8>,
    /// The bits of the subject public key.
    pub public_key: Vec<u8>,
}

/// The model of the parts of a certificate.
#[verifier::ext_equal]
pub struct CertificateView {
    /// The number of the version.
    pub version: u32,
    /// The encoded object identifier of the signature algorithm.
    pub signature_algorithm: Seq<u8>,
    /// The attributes of the subject.
    pub subject: Seq<NameAttributeView>,
    /// The DER of the subject.
    pub subject_raw: Seq<u8>,
    /// The DER of the issuer.
    pub issuer_raw: Seq<u8>,
    /// The bits of the subject public key.
    pub public_key: Seq<u8>,
}

impl View for CertificateParts {
    type V = CertificateView;

    open spec fn view(&self) -> CertificateView {
        CertificateView {
            version: self.version,
            signature_algorithm: self.signature_algorithm@,
            subject: name_view(self.subject@),
            subject_raw: self.subject_raw@,
            issuer_raw: self.issuer_raw@,
            public_key: self.public_key@,
        }
    }
}

/// An extension of a certificate.
#[derive(Debug, Clone, PartialEq, Eq)]
pub enum CertExtension {
    /// Whether the subject is a CA, and how long a path may be below it.
    BasicConstraints {
        /// Whether the extension is critical.
        critical: bool,
        /// Whether the subject is a CA.
        ca: bool,
        /// How many intermediate certificates may follow.
        path_len: Option<u32>,
    },
    /// What the key may be used for.
    KeyUsage {
        /// Whether the extension is critical.
        critical: bool,
        /// One bit for each use.
        flags: u16,
    },
    /// The identifier of the subject's key.
    SubjectKeyIdentifier {
        /// Whether the extension is critical.
        critical: bool,
        /// The identifier.
        key_id: Vec<u8>,
    },
    /// The identifier of the issuer's key.
    AuthorityKeyIdentifier {
        /// Whether the extension is critical.
        critical: bool,
        /// The identifier, if the extension has one.
        key_id: Option<Vec<u8>>,
    },
    /// Any other extension.
    Other,
}

/// The model of an extension of a certificate.
#[verifier::ext_equal]
pub enum ExtensionView {
    /// Whether the subject is a CA, and how long a path may be below it.
    BasicConstraints {
        /// Whether the extension is critical.
        critical: bool,
        /// Whether the subject is a CA.
        ca: bool,
        /// How many intermediate certificates may follow.
        path_len: Option<u32>,
    },
    /// What the key may be used for.
    KeyUsage {
        /// Whether the extension is critical.
        critical: bool,
        /// One bit for each use.
        flags: u16,
    },
    /// The identifier of the subject's key.
    SubjectKeyIdentifier {
        /// Whether the extension is critical.
        critical: bool,
        /// The identifier.
        key_id: Seq<u8>,
    },
    /// The identifier of the issuer's key.
    AuthorityKeyIdentifier {
        /// Whether the extension is critical.
        critical: bool,
        /// The identifier, if the extension has one.
        key_id: Option<Seq<u8>>,
    },
    /// Any other extension.
    Other,
}

impl View for CertExtension {
    type V = ExtensionView;

    open spec fn view(&self) -> ExtensionView {
        match *self {
            CertExtension::BasicConstraints { critical, ca, path_len } => {
                ExtensionView::BasicConstraints { critical, ca, path_len }
            },
            CertExtension::KeyUsage { critical, flags } => {
                ExtensionView::KeyUsage { critical, flags }
            },
            CertExtension::SubjectKeyIdentifier { critical, key_id } => {
                ExtensionView::SubjectKeyIdentifier { critical, key_id: key_id@ }
            },
            CertExtension::AuthorityKeyIdentifier { critical, key_id } => {
                ExtensionView::AuthorityKeyIdentifier {
                    critical,
                    key_id: match key_id {
                        Some(k) => Some(k@),
                        None => None,
                    },
                }
            },
            CertExtension::Other => ExtensionView::Other,
        }
    }
}

/// The models of the extensions of a certificate.
pub open spec fn extensions_view(extensions: Seq<CertExtension>) -> Seq<ExtensionView> {
    extensions.map_values(|e: CertExtension| e@)
}

/// The parts of the certificate at the front of `der`, if one stands there.
pub uninterp spec fn x509_certificate(der: Seq<u8>) -> Option<CertificateView>;

/// The extensions of the certificate at the front of `der`, if one stands there.
pub uninterp spec fn x509_extensions(der: Seq<u8>) -> Option<Seq<ExtensionView>>;

/// Calls `x509_parser`'s `X509Certificate::from_der` and takes the parts out of
/// what it returns. They depend on the DER alone.
#[verifier::external_body]
pub(crate) fn parse_certificate(der: &[u8]) -> (parts: Option<CertificateParts>)
    ensures
        match parts {
            Some(p) => x509_certificate(der@) == Some(p@),
            None => x509_certificate(der@) is None,
        },
{
    let (_, cert) = X509Certificate::from_der(der).ok()?;
    let to_attribute = |a: &x509_parser::x509::AttributeTypeAndValue| NameAttribute {
        oid: a.attr_type().as_bytes().to_vec(),
        value: a.as_str().ok().map(String::from),
    };
    Some(CertificateParts {
        version: cert.version().0,
        signature_algorithm: cert.signature_algorithm.algorithm.as_bytes().to_vec(),
        subject: cert.subject().iter_attributes().map(to_attribute).collect(),
        subject_raw: cert.subject().as_raw().to_vec(),
        issuer_raw: cert.issuer().as_raw().to_vec(),
        public_key: cert.public_key().subject_public_key.data.as_ref().to_vec(),
    })
}

/// Calls `x509_parser`'s `X509Certificate::from_der` and hands out the extensions
/// of what it returns, in order. They depend on the DER alone; there are some
/// exactly where there are parts of a certificate.
#[verifier::external_body]
pub(crate) fn parse_extensions(der: &[u8]) -> (extensions: Option<Vec<CertExtension>>)
    ensures
        match extensions {
            Some(e) => x509_extensions(der@) == Some(extensions_view(e@)),
            None => x509_extensions(der@) is None,
        },
        extensions is Some <==> x509_certificate(der@) is Some,
{
    let (_, cert) = X509Certificate::from_der(der).ok()?;
    Some(cert.extensions().iter().map(|e| match (e.critical, e.parsed_extension()) {
        (critical, ParsedExtension::BasicConstraints(b)) => {
            CertExtension::BasicConstraints { critical, ca: b.ca, path_len: b.path_len_constraint }
        },
        (critical, ParsedExtension::KeyUsage(u)) => CertExtension::KeyUsage { critical, flags: u.flags },
        (critical, ParsedExtension::SubjectKeyIdentifier(k)) => {
            CertExtension::SubjectKeyIdentifier { critical, key_id: k.0.to_vec() }
        },
        (critical, ParsedExtension::AuthorityKeyIdentifier(a)) => CertExtension::AuthorityKeyIdentifier {
            critical, key_id: a.key_identifier.as_ref().map(|k| k.0.to_vec()) },
        _ => CertExtension::Other,
    }).collect())
}

/// What the subject of a device certificate holds: a vendor and a product.
pub open spec fn dac_subject(subject: Seq<NameAttributeView>) -> Result<(u16, u16), ParseFault> {
    match name_identifier(subject, MATTER_VID_OID@) {
        Err(e) => Err(ParseFault::Dn(e)),
        Ok(None) => Err(ParseFault::MissingRequired("DAC subject VendorId")),
        Ok(Some(vid)) => match name_identifier(subject, MATTER_PID_OID@) {
            Err(e) => Err(ParseFault::Dn(e)),
            Ok(None) => Err(ParseFault::MissingRequired("DAC subject ProductId")),
            Ok(Some(pid)) => Ok((vid, pid)),
        },
    }
}

/// What the subject of an intermediate certificate holds: a vendor and possibly
/// a product.
pub open spec fn pai_subject(subject: Seq<NameAttributeView>) -> Result<
    (u16, Option<u16>),
    ParseFault,
> {
    match name_identifier(subject, MATTER_VID_OID@) {
        Err(e) => Err(ParseFault::Dn(e)),
        Ok(None) => Err(ParseFault::MissingRequired("PAI subject VendorId")),
        Ok(Some(vid)) => match name_identifier(subject, MATTER_PID_OID@) {
            Err(e) => Err(ParseFault::Dn(e)),
            Ok(pid) => Ok((vid, pid)),
        },
    }
}

/// What the subject of a root certificate holds: possibly a vendor, and no
/// product.
pub open spec fn paa_subject(subject: Seq<NameAttributeView>) -> Result<Option<u16>, ParseFault> {
    match name_identifier(subject, MATTER_VID_OID@) {
        Err(e) => Err(ParseFault::Dn(e)),
        Ok(vid) => match name_identifier(subject, MATTER_PID_OID@) {
            Err(e) => Err(ParseFault::Dn(e)),
            Ok(Some(_)) => Err(
                ParseFault::ForbiddenField("PAA subject must not contain a ProductId"),
            ),
            Ok(None) => Ok(vid),
        },
    }
}

/// The number of an optional vendor.
pub open spec fn vid_view(vid: Option<VendorId>) -> Option<u16> {
    match vid {
        Some(v) => Some(v@),
        None => None,
    }
}

/// The number of an optional product.
pub open spec fn pid_view(pid: Option<ProductId>) -> Option<u16> {
    match pid {
        Some(p) => Some(p@),
        None => None,
    }
}

/// Whether bytes are the encoding of an uncompressed P-256 point.
pub open spec fn is_point(key: Seq<u8>) -> bool {
    key.len() == 65 && key[0] == 4
}

/// A device attestation certificate.
#[derive(Debug, Clone)]
pub struct Dac {
    der: Vec<u8>,
    subject_vid: VendorId,
    subject_pid: ProductId,
    public_key: PublicKey,
}

/// The model of a device attestation certificate.
#[verifier::ext_equal]
pub struct DacView {
    /// The DER.
    pub der: Seq<u8>,
    /// The vendor.
    pub subject_vid: u16,
    /// The product.
    pub subject_pid: u16,
    /// The public key.
    pub public_key: Seq<u8>,
}

impl View for Dac {
    type V = DacView;

    closed spec fn view(&self) -> DacView {
        DacView {
            der: self.der@,
            subject_vid: self.subject_vid@,
            subject_pid: self.subject_pid@,
            public_key: self.public_key@,
        }
    }
}

/// The device certificate with the given DER and parts.
pub open spec fn dac_of(der: Seq<u8>, parts: Option<CertificateView>) -> Result<
    DacView,
    ParseFault,
> {
    match parts {
        None => Err(ParseFault::Der),
        Some(p) => match dac_subject(p.subject) {
            Err(e) => Err(e),
            Ok((subject_vid, subject_pid)) => if is_point(p.public_key) {
                Ok(DacView { der, subject_vid, subject_pid, public_key: p.public_key })
            } else {
                Err(ParseFault::PublicKey)
            },
        },
    }
}

impl Dac {
    /// The device certificate with the given DER and parts.
    pub fn from_parts(der: &[u8], parts: CertificateParts) -> (r: Result<Self, AttestationError>)
        ensures
            match dac_of(der@, Some(parts@)) {
                Err(e) => r == Err::<Dac, AttestationError>(AttestationError::Parse(e)),
                Ok(view) => r matches Ok(dac) && dac@ == view,
            },
    {
        let subject_vid = match extract_vid(&parts.subject) {
            Err(e) => {
                return Err(AttestationError::Parse(ParseFault::Dn(e)));
            },
            Ok(None) => {
                return Err(
                    AttestationError::Parse(ParseFault::MissingRequired("DAC subject VendorId")),
                );
            },
            Ok(Some(vid)) => vid,
        };
        let subject_pid = match extract_pid(&parts.subject) {
            Err(e) => {
                return Err(AttestationError::Parse(ParseFault::Dn(e)));
            },
            Ok(None) => {
                return Err(
                    AttestationError::Parse(ParseFault::MissingRequired("DAC subject ProductId")),
                );
            },
            Ok(Some(pid)) => pid,
        };
        let public_key = match PublicKey::from_slice(parts.public_key.as_slice()) {
            None => {
                return Err(AttestationError::Parse(ParseFault::PublicKey));
            },
            Some(key) => key,
        };
        Ok(Dac { der: slice_to_vec(der), subject_vid, subject_pid, public_key })
    }

    /// Parses a device certificate. Says nothing about who signed it.
    pub fn from_der(bytes: &[u8]) -> (r: Result<Self, AttestationError>)
        ensures
            match dac_of(bytes@, x509_certificate(bytes@)) {
                Err(e) => r == Err::<Dac, AttestationError>(AttestationError::Parse(e)),
                Ok(view) => r matches Ok(dac) && dac@ == view,
            },
    {
        match parse_certificate(bytes) {
            None => Err(AttestationError::Parse(ParseFault::Der)),
            Some(parts) => Dac::from_parts(bytes, parts),
        }
    }

    /// The DER that the certificate was parsed from.
    pub fn der(&self) -> (der: &[u8])
        ensures
            der@ == self@.der,
    {
        self.der.as_slice()
    }

    /// The vendor in the subject.
    pub fn subject_vid(&self) -> (vid: VendorId)
        ensures
            vid@ == self@.subject_vid,
    {
        self.subject_vid
    }

    /// The product in the subject.
    pub fn subject_pid(&self) -> (pid: ProductId)
        ensures
            pid@ == self@.subject_pid,
    {
        self.subject_pid
    }

    /// The public key: `0x04` and two coordinates of 32 bytes.
    pub fn public_key(&self) -> (key: &[u8])
        ensures
            key@ == self@.public_key,
            key@.len() == 65 && key@[0] == 4,
    {
        self.public_key.as_bytes().as_slice()
    }
}

/// A product attestation intermediate certificate.
#[derive(Debug, Clone)]
pub struct Pai {
    der: Vec<u8>,
    subject_vid: VendorId,
    subject_pid: Option<ProductId>,
    public_key: PublicKey,
    issuer_raw: Vec<u8>,
}

/// The model of a product attestation intermediate certificate.
#[verifier::ext_equal]
pub struct PaiView {
    /// The DER.
    pub der: Seq<u8>,
    /// The vendor.
    pub subject_vid: u16,
    /// The product that the certificate is bound to, if any.
    pub subject_pid: Option<u16>,
    /// The public key.
    pub public_key: Seq<u8>,
    /// The DER of the issuer.
    pub issuer_raw: Seq<u8>,
}

impl View for Pai {
    type V = PaiView;

    closed spec fn view(&self) -> PaiView {
        PaiView {
            der: self.der@,
            subject_vid: self.subject_vid@,
            subject_pid: pid_view(self.subject_pid),
            public_key: self.public_key@,
            issuer_raw: self.issuer_raw@,
        }
    }
}

/// The intermediate certificate with the given DER and parts.
pub open spec fn pai_of(der: Seq<u8>, parts: Option<CertificateView>) -> Result<
    PaiView,
    ParseFault,
> {
    match parts {
        None => Err(ParseFault::Der),
        Some(p) => match pai_subject(p.subject) {
            Err(e) => Err(e),
            Ok((subject_vid, subject_pid)) => if is_point(p.public_key) {
                Ok(
                    PaiView {
                        der,
                        subject_vid,
                        subject_pid,
                        public_key: p.public_key,
                        issuer_raw: p.issuer_raw,
                    },
                )
            } else {
                Err(ParseFault::PublicKey)
            },
        },
    }
}

impl Pai {
    /// The intermediate certificate with the given DER and parts.
    pub fn from_parts(der: &[u8], parts: CertificateParts) -> (r: Result<Self, AttestationError>)
        ensures
            match pai_of(der@, Some(parts@)) {
                Err(e) => r == Err::<Pai, AttestationError>(AttestationError::Parse(e)),
                Ok(view) => r matches Ok(pai) && pai@ == view,
            },
    {
        let subject_vid = match extract_vid(&parts.subject) {
            Err(e) => {
                return Err(AttestationError::Parse(ParseFault::Dn(e)));
            },
            Ok(None) => {
                return Err(
                    AttestationError::Parse(ParseFault::MissingRequired("PAI subject VendorId")),
                );
            },
            Ok(Some(vid)) => vid,
        };
        let subject_pid = match extract_pid(&parts.subject) {
            Err(e) => {
                return Err(AttestationError::Parse(ParseFault::Dn(e)));
            },
            Ok(pid) => pid,
        };
        let public_key = match PublicKey::from_slice(parts.public_key.as_slice()) {
            None => {
                return Err(AttestationError::Parse(ParseFault::PublicKey));
            },
            Some(key) => key,
        };
        Ok(
            Pai {
                der: slice_to_vec(der),
                subject_vid,
                subject_pid,
                public_key,
                issuer_raw: parts.issuer_raw,
            },
        )
    }

    /// Parses an intermediate certificate. Says nothing about who signed it.
    pub fn from_der(bytes: &[u8]) -> (r: Result<Self, AttestationError>)
        ensures
            match pai_of(bytes@, x509_certificate(bytes@)) {
                Err(e) => r == Err::<Pai, AttestationError>(AttestationError::Parse(e)),
                Ok(view) => r matches Ok(pai) && pai@ == view,
            },
    {
        match parse_certificate(bytes) {
            None => Err(AttestationError::Parse(ParseFault::Der)),
            Some(parts) => Pai::from_parts(bytes, parts),
        }
    }

    /// The DER that the certificate was parsed from.
    pub fn der(&self) -> (der: &[u8])
        ensures
            der@ == self@.der,
    {
        self.der.as_slice()
    }

    /// The DER of the issuer.
    pub fn issuer_raw(&self) -> (issuer: &[u8])
        ensures
            issuer@ == self@.issuer_raw,
    {
        self.issuer_raw.as_slice()
    }

    /// The vendor in the subject.
    pub fn subject_vid(&self) -> (vid: VendorId)
        ensures
            vid@ == self@.subject_vid,
    {
        self.subject_vid
    }

    /// The product in the subject; without one the certificate is good for any
    /// product of its vendor.
    pub fn subject_pid(&self) -> (pid: Option<ProductId>)
        ensures
            pid_view(pid) == self@.subject_pid,
    {
        self.subject_pid
    }

    /// The public key: `0x04` and two coordinates of 32 bytes.
    pub fn public_key(&self) -> (key: &[u8])
        ensures
            key@ == self@.public_key,
            key@.len() == 65 && key@[0] == 4,
    {
        self.public_key.as_bytes().as_slice()
    }
}

/// A product attestation authority: a root certificate.
#[derive(Debug, Clone)]
pub struct Paa {
    der: Vec<u8>,
    subject_vid: Option<VendorId>,
    public_key: PublicKey,
    subject_raw: Vec<u8>,
}

/// The model of a root certificate.
#[verifier::ext_equal]
pub struct PaaView {
    /// The DER.
    pub der: Seq<u8>,
    /// The vendor that the certificate is bound to, if any.
    pub subject_vid: Option<u16>,
    /// The public key.
    pub public_key: Seq<u8>,
    /// The DER of the subject.
    pub subject_raw: Seq<u8>,
}

impl View for Paa {
    type V = PaaView;

    closed spec fn view(&self) -> PaaView {
        PaaView {
            der: self.der@,
            subject_vid: vid_view(self.subject_vid),
            public_key: self.public_key@,
            subject_raw: self.subject_raw@,
        }
    }
}

/// The root certificate with the given DER and parts.
pub open spec fn paa_of(der: Seq<u8>, parts: Option<CertificateView>) -> Result<
    PaaView,
    ParseFault,
> {
    match parts {
        None => Err(ParseFault::Der),
        Some(p) => match paa_subject(p.subject) {
            Err(e) => Err(e),
            Ok(subject_vid) => if is_point(p.public_key) {
                Ok(
                    PaaView {
                        der,
                        subject_vid,
                        public_key: p.public_key,
                        subject_raw: p.subject_raw,
                    },
                )
            } else {
                Err(ParseFault::PublicKey)
            },
        },
    }
}

/// The identifier in the first extension that identifies the subject's key.
pub open spec fn subject_key_id(extensions: Seq<ExtensionView>) -> Option<Seq<u8>>
    decreases extensions.len(),
{
    if extensions.len() == 0 {
        None
    } else {
        match extensions[0] {
            ExtensionView::SubjectKeyIdentifier { key_id, .. } => Some(key_id),
            _ => subject_key_id(extensions.skip(1)),
        }
    }
}

/// The identifier in the first extension that identifies the subject's key.
pub fn find_subject_key_id(extensions: &Vec<CertExtension>) -> (id: Option<Vec<u8>>)
    ensures
        match subject_key_id(extensions_view(extensions@)) {
            Some(key_id) => id matches Some(v) && v@ == key_id,
            None => id is None,
        },
{
    let ghost view = extensions_view(extensions@);
    let mut i: usize = 0;
    proof {
        assert(view.skip(0) =~= view);
    }
    while i < extensions.len()
        invariant
            i <= extensions@.len(),
            view == extensions_view(extensions@),
            subject_key_id(view) == subject_key_id(view.skip(i as int)),
        decreases extensions@.len() - i,
    {
        proof {
            assert(view.skip(i as int)[0] == extensions@[i as int]@);
            assert(view.skip(i as int).skip(1) =~= view.skip(i + 1));
        }
        if let CertExtension::SubjectKeyIdentifier { critical: _, key_id } = &extensions[i] {
            return Some(slice_to_vec(key_id.as_slice()));
        }
        i = i + 1;
    }
    proof {
        assert(view.skip(i as int).len() == 0);
    }
    None
}

impl Paa {
    /// The root certificate with the given DER and parts.
    pub fn from_parts(der: &[u8], parts: CertificateParts) -> (r: Result<Self, AttestationError>)
        ensures
            match paa_of(der@, Some(parts@)) {
                Err(e) => r == Err::<Paa, AttestationError>(AttestationError::Parse(e)),
                Ok(view) => r matches Ok(paa) && paa@ == view,
            },
    {
        let subject_vid = match extract_vid(&parts.subject) {
            Err(e) => {
                return Err(AttestationError::Parse(ParseFault::Dn(e)));
            },
            Ok(vid) => vid,
        };
        match extract_pid(&parts.subject) {
            Err(e) => {
                return Err(AttestationError::Parse(ParseFault::Dn(e)));
            },
            Ok(Some(_)) => {
                return Err(
                    AttestationError::Parse(
                        ParseFault::ForbiddenField("PAA subject must not contain a ProductId"),
                    ),
                );
            },
            Ok(None) => {},
        }
        let public_key = match PublicKey::from_slice(parts.public_key.as_slice()) {
            None => {
                return Err(AttestationError::Parse(ParseFault::PublicKey));
            },
            Some(key) => key,
        };
        Ok(
            Paa {
                der: slice_to_vec(der),
                subject_vid,
                public_key,
                subject_raw: parts.subject_raw,
            },
        )
    }

    /// Parses a root certificate. Says nothing about who signed it.
    pub fn from_der(bytes: &[u8]) -> (r: Result<Self, AttestationError>)
        ensures
            match paa_of(bytes@, x509_certificate(bytes@)) {
                Err(e) => r == Err::<Paa, AttestationError>(AttestationError::Parse(e)),
                Ok(view) => r matches Ok(paa) && paa@ == view,
            },
    {
        match parse_certificate(bytes) {
            None => Err(AttestationError::Parse(ParseFault::Der)),
            Some(parts) => Paa::from_parts(bytes, parts),
        }
    }

    /// The DER that the certificate was parsed from.
    pub fn der(&self) -> (der: &[u8])
        ensures
            der@ == self@.der,
    {
        self.der.as_slice()
    }

    /// The DER of the subject.
    pub fn subject_raw(&self) -> (subject: &[u8])
        ensures
            subject@ == self@.subject_raw,
    {
        self.subject_raw.as_slice()
    }

    /// The vendor in the subject; without one the certificate is good for any
    /// vendor.
    pub fn subject_vid(&self) -> (vid: Option<VendorId>)
        ensures
            vid_view(vid) == self@.subject_vid,
    {
        self.subject_vid
    }

    /// The public key: `0x04` and two coordinates of 32 bytes.
    pub fn public_key(&self) -> (key: &[u8])
        ensures
            key@ == self@.public_key,
            key@.len() == 65 && key@[0] == 4,
    {
        self.public_key.as_bytes().as_slice()
    }

    /// The identifier of the root's key, if its certificate has one.
    pub fn subject_key_identifier(&self) -> (id: Option<Vec<u8>>)
        ensures
            match x509_extensions(self@.der) {
                None => id is None,
                Some(extensions) => match subject_key_id(extensions) {
                    Some(key_id) => id matches Some(v) && v@ == key_id,
                    None => id is None,
                },
            },
    {
        match parse_extensions(self.der.as_slice()) {
            None => None,
            Some(extensions) => find_subject_key_id(&extensions),
        }
    }
}

/// A device certificate is accepted exactly if it is one, its name has a vendor
/// and a product, and its key is an uncompressed point; it says of itself just
/// that. The vendor is the attribute of type 1.3.6.1.4.1.37244.2.1, the product
/// that of type 1.3.6.1.4.1.37244.2.2.
pub proof fn law_device_certificate(der: Seq<u8>, p: CertificateView)
    ensures
        ({
            let vid = name_identifier(p.subject, seq![
                0x2Bu8,
                0x06,
                0x01,
                0x04,
                0x01,
                0x82,
                0xA2,
                0x7C,
                0x02,
                0x01,
            ]);
            let pid = name_identifier(p.subject, seq![
                0x2Bu8,
                0x06,
                0x01,
                0x04,
                0x01,
                0x82,
                0xA2,
                0x7C,
                0x02,
                0x02,
            ]);
            &&& dac_of(der, Some(p)) is Ok <==> (vid matches Ok(Some(_))) && (pid matches Ok(
                Some(_),
            )) && p.public_key.len() == 65 && p.public_key[0] == 4
            &&& (dac_of(der, Some(p)) matches Ok(view) ==> view.der == der && vid == Ok::<
                Option<u16>,
                crate::attestation::extensions::MatterDnError,
            >(Some(view.subject_vid)) && pid == Ok::<
                Option<u16>,
                crate::attestation::extensions::MatterDnError,
            >(Some(view.subject_pid)) && view.public_key == p.public_key)
        }),
        dac_of(der, None) is Err,
{
    lemma_type_oids();
}

/// An intermediate certificate is accepted exactly if it is one, its name has a
/// vendor and nothing is wrong with its product, and its key is an uncompressed
/// point; it says of itself just that, and who issued it.
pub proof fn law_intermediate_certificate(der: Seq<u8>, p: CertificateView)
    ensures
        ({
            let vid = name_identifier(p.subject, seq![
                0x2Bu8,
                0x06,
                0x01,
                0x04,
                0x01,
                0x82,
                0xA2,
                0x7C,
                0x02,
                0x01,
            ]);
            let pid = name_identifier(p.subject, seq![
                0x2Bu8,
                0x06,
                0x01,
                0x04,
                0x01,
                0x82,
                0xA2,
                0x7C,
                0x02,
                0x02,
            ]);
            &&& pai_of(der, Some(p)) is Ok <==> (vid matches Ok(Some(_))) && pid is Ok
                && p.public_key.len() == 65 && p.public_key[0] == 4
            &&& (pai_of(der, Some(p)) matches Ok(view) ==> view.der == der && vid == Ok::<
                Option<u16>,
                crate::attestation::extensions::MatterDnError,
            >(Some(view.subject_vid)) && pid == Ok::<
                Option<u16>,
                crate::attestation::extensions::MatterDnError,
            >(view.subject_pid) && view.public_key == p.public_key && view.issuer_raw
                == p.issuer_raw)
        }),
        pai_of(der, None) is Err,
{
    lemma_type_oids();
}

/// A root certificate is accepted exactly if it is one, nothing is wrong with its
/// vendor, its name has no product, and its key is an uncompressed point; it says
/// of itself just that, and its name.
pub proof fn law_root_certificate_parts(der: Seq<u8>, p: CertificateView)
    ensures
        ({
            let vid = name_identifier(p.subject, seq![
                0x2Bu8,
                0x06,
                0x01,
                0x04,
                0x01,
                0x82,
                0xA2,
                0x7C,
                0x02,
                0x01,
            ]);
            let pid = name_identifier(p.subject, seq![
                0x2Bu8,
                0x06,
                0x01,
                0x04,
                0x01,
                0x82,
                0xA2,
                0x7C,
                0x02,
                0x02,
            ]);
            &&& paa_of(der, Some(p)) is Ok <==> vid is Ok && (pid matches Ok(None))
                && p.public_key.len() == 65 && p.public_key[0] == 4
            &&& (paa_of(der, Some(p)) matches Ok(view) ==> view.der == der && vid == Ok::<
                Option<u16>,
                crate::attestation::extensions::MatterDnError,
            >(view.subject_vid) && view.public_key == p.public_key && view.subject_raw
                == p.subject_raw)
        }),
        paa_of(der, None) is Err,
{
    lemma_type_oids();
}

/// The types of the attributes that name a vendor and a product.
proof fn lemma_type_oids()
    ensures
        MATTER_VID_OID@ == seq![
                0x2Bu8,
                0x06,
                0x01,
                0x04,
                0x01,
                0x82,
                0xA2,
                0x7C,
                0x02,
                0x01,
            ],
        MATTER_PID_OID@ == seq![
                0x2Bu8,
                0x06,
                0x01,
                0x04,
                0x01,
                0x82,
                0xA2,
                0x7C,
                0x02,
                0x02,
            ],
{
    assert(MATTER_VID_OID@ =~= seq![
                0x2Bu8,
                0x06,
                0x01,
                0x04,
                0x01,
                0x82,
                0xA2,
                0x7C,
                0x02,
                0x01,
            ]);
    assert(MATTER_PID_OID@ =~= seq![
                0x2Bu8,
                0x06,
                0x01,
                0x04,
                0x01,
                0x82,
                0xA2,
                0x7C,
                0x02,
                0x02,
            ]);
}

/// The identifier of the subject's key is that in the first extension that has
/// one.
pub proof fn law_first_key_identifier_counts(extensions: Seq<ExtensionView>, i: int)
    requires
        0 <= i <= extensions.len(),
        forall|j: int|
            0 <= j < i ==> !(#[trigger] extensions[j] is SubjectKeyIdentifier),
        i < extensions.len() ==> extensions[i] is SubjectKeyIdentifier,
    ensures
        i == extensions.len() ==> subject_key_id(extensions) is None,
        i < extensions.len() ==> (extensions[i] matches ExtensionView::SubjectKeyIdentifier {
            critical: _,
            key_id,
        } && subject_key_id(extensions) == Some(key_id)),
    decreases i,
{
    if i > 0 {
        let rest = extensions.skip(1);
        assert(!(extensions[0] is SubjectKeyIdentifier));
        assert forall|j: int| 0 <= j < i - 1 implies !(
        #[trigger] rest[j] is SubjectKeyIdentifier) by {
            assert(rest[j] == extensions[j + 1]);
        }
        law_first_key_identifier_counts(rest, i - 1);
    }
}

} // verus!
