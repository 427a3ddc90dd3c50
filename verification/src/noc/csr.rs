//! Node operational CSRs: what a device sends to get its operational
//! certificate, and the checks that it has to pass.

use crate::attestation::response::{dac_signature_valid, verify_dac_signed_elements};
use crate::crypto::{
    p256_der_signature_valid, p256_fixed_signature_valid, verify_p256_der, PublicKey,
    DIGEST_INPUT_LIMIT,
};
use crate::noc::error::{CsrFault, NocError, NocsrFault};
use crate::tlv::members::{
    bytes_at, bytes_field, first_fault, items_of, lemma_fault_push, lemma_field_bound,
    lemma_field_push, lemma_first_fault_prefix, lemma_next_member, lemma_written_structure,
    open_structure, opening, optional, structure, Ending, Opened, Opening,
};
use crate::tlv::{at, decode_all, encodable, Element, Item, Scalar, Tag, Value};
use vstd::prelude::*;
use vstd::slice::slice_to_vec;
use x509_parser::prelude::{FromDer, X509CertificationRequest};

verus! {

/// The decoded elements of a node operational CSR.
#[derive(Debug, Clone, PartialEq, Eq)]
pub struct NocsrElements {
    /// The DER of the PKCS#10 request.
    pub csr_der: Vec<u8>,
    /// The nonce that the device echoes.
    pub csr_nonce: [u8; 32],
    /// An octet string reserved for vendors.
    pub vendor_reserved_1: Option<Vec<u8>>,
    /// An octet string reserved for vendors.
    pub vendor_reserved_2: Option<Vec<u8>>,
    /// An octet string reserved for vendors.
    pub vendor_reserved_3: Option<Vec<u8>>,
}

/// A PKCS#10 request whose self-signature has been verified.
#[derive(Debug, Clone, Copy)]
pub struct ParsedCsr {
    /// The key that the request is for.
    pub public_key: PublicKey,
}

/// A CSR that has passed all checks.
#[derive(Debug, Clone, Copy)]
pub struct VerifiedCsr {
    /// The operational key of the device.
    pub public_key: PublicKey,
}

/// The model of the elements of a CSR.
#[verifier::ext_equal]
pub struct NocsrView {
    /// The DER of the PKCS#10 request.
    pub csr_der: Seq<u8>,
    /// The nonce.
    pub csr_nonce: Seq<u8>,
    /// The octet string under tag 3.
    pub vendor_reserved_1: Option<Seq<u8>>,
    /// The octet string under tag 4.
    pub vendor_reserved_2: Option<Seq<u8>>,
    /// The octet string under tag 5.
    pub vendor_reserved_3: Option<Seq<u8>>,
}

/// The model of an optional octet string.
pub open spec fn octets_view(v: Option<Vec<u8>>) -> Option<Seq<u8>> {
    match v {
        Some(v) => Some(v@),
        None => None,
    }
}

impl View for NocsrElements {
    type V = NocsrView;

    open spec fn view(&self) -> NocsrView {
        NocsrView {
            csr_der: self.csr_der@,
            csr_nonce: self.csr_nonce@,
            vendor_reserved_1: octets_view(self.vendor_reserved_1),
            vendor_reserved_2: octets_view(self.vendor_reserved_2),
            vendor_reserved_3: octets_view(self.vendor_reserved_3),
        }
    }
}

/// The objections against a member of the elements of a CSR: each is an octet
/// string under one of the tags 1 to 5, none occurs twice, and the nonce has 32
/// bytes.
pub open spec fn nocsr_rule(before: Seq<Item>, item: Item) -> Option<NocsrFault> {
    match item {
        Item::Scalar { tag: Tag::Context(t), value: Scalar::Bytes(v) } => {
            if t == 1 {
                if bytes_field(before, 1) is Some {
                    Some(NocsrFault::Duplicate("csr"))
                } else {
                    None
                }
            } else if t == 2 {
                if bytes_field(before, 2) is Some {
                    Some(NocsrFault::Duplicate("csr_nonce"))
                } else if v.len() != 32 {
                    Some(NocsrFault::NonceLength)
                } else {
                    None
                }
            } else if t == 3 {
                if bytes_field(before, 3) is Some {
                    Some(NocsrFault::Duplicate("vendor_reserved_1"))
                } else {
                    None
                }
            } else if t == 4 {
                if bytes_field(before, 4) is Some {
                    Some(NocsrFault::Duplicate("vendor_reserved_2"))
                } else {
                    None
                }
            } else if t == 5 {
                if bytes_field(before, 5) is Some {
                    Some(NocsrFault::Duplicate("vendor_reserved_3"))
                } else {
                    None
                }
            } else {
                Some(NocsrFault::UnknownTag(t))
            }
        },
        _ => Some(NocsrFault::UnexpectedElement),
    }
}

/// What the elements of a CSR hold.
pub open spec fn nocsr(tlv: Seq<u8>) -> Result<NocsrView, NocsrFault> {
    match opening(decode_all(tlv)) {
        Opening::Fault(e) => Err(NocsrFault::Codec(e)),
        Opening::NotStructure => Err(NocsrFault::NotStructure),
        Opening::Members(members, ending) => {
            match first_fault(members, |before: Seq<Item>, item: Item| nocsr_rule(before, item)) {
                Some(e) => Err(e),
                None => match ending {
                    Ending::Fault(e) => Err(NocsrFault::Codec(e)),
                    Ending::Eof => Err(NocsrFault::Unclosed),
                    Ending::Closed => match (bytes_field(members, 1), bytes_field(members, 2)) {
                        (None, _) => Err(NocsrFault::Missing("csr")),
                        (Some(_), None) => Err(NocsrFault::Missing("csr_nonce")),
                        (Some(csr_der), Some(csr_nonce)) => Ok(
                            NocsrView {
                                csr_der,
                                csr_nonce,
                                vendor_reserved_1: bytes_field(members, 3),
                                vendor_reserved_2: bytes_field(members, 4),
                                vendor_reserved_3: bytes_field(members, 5),
                            },
                        ),
                    },
                },
            }
        },
    }
}

/// The first 32 bytes of a vector.
pub(crate) fn to_32(v: &Vec<u8>) -> (a: [u8; 32])
    requires
        v@.len() == 32,
    ensures
        a@ == v@,
{
    let mut a: [u8; 32] = [0;32];
    let mut i: usize = 0;
    while i < 32
        invariant
            i <= 32,
            v@.len() == 32,
            forall|j: int| 0 <= j < i ==> a@[j] == v@[j],
        decreases 32 - i,
    {
        a[i] = v[i];
        i = i + 1;
    }
    proof {
        assert(a@ =~= v@);
    }
    a
}

/// Decodes the elements of a CSR: the request under tag 1, the nonce under tag
/// 2, vendor data under tags 3 to 5, and nothing else.
pub fn parse_nocsr(elements_tlv: &[u8]) -> (r: Result<NocsrElements, NocError>)
    ensures
        match nocsr(elements_tlv@) {
            Err(e) => r == Err::<NocsrElements, NocError>(NocError::NocsrParse(e)),
            Ok(view) => r matches Ok(v) && v@ == view,
        },
{
    let (members, ending) = match open_structure(elements_tlv) {
        Opened::Fault(e) => {
            return Err(NocError::NocsrParse(NocsrFault::Codec(e)));
        },
        Opened::NotStructure => {
            return Err(NocError::NocsrParse(NocsrFault::NotStructure));
        },
        Opened::Members(members, ending) => (members, ending),
    };
    let ghost items = items_of(members@);
    let ghost rule = |before: Seq<Item>, item: Item| nocsr_rule(before, item);
    let mut csr_der: Option<Vec<u8>> = None;
    let mut csr_nonce: Option<[u8; 32]> = None;
    let mut vr1: Option<Vec<u8>> = None;
    let mut vr2: Option<Vec<u8>> = None;
    let mut vr3: Option<Vec<u8>> = None;
    let mut i: usize = 0;
    while i < members.len()
        invariant
            i <= members@.len(),
            items == items_of(members@),
            rule == (|before: Seq<Item>, item: Item| nocsr_rule(before, item)),
            opening(decode_all(elements_tlv@)) == Opening::Members(items, ending),
            first_fault(items.take(i as int), rule) is None,
            octets_view(csr_der) == bytes_field(items.take(i as int), 1),
            match csr_nonce {
                Some(v) => bytes_field(items.take(i as int), 2) == Some(v@),
                None => bytes_field(items.take(i as int), 2) is None,
            },
            octets_view(vr1) == bytes_field(items.take(i as int), 3),
            octets_view(vr2) == bytes_field(items.take(i as int), 4),
            octets_view(vr3) == bytes_field(items.take(i as int), 5),
        decreases members@.len() - i,
    {
        proof {
            lemma_next_member(members@, i as int);
            if first_fault(items.take(i + 1), rule) is Some {
                lemma_first_fault_prefix(items, i + 1, rule);
            }
        }
        match &members[i] {
            Element::Scalar { tag: Tag::Context(t), value: Value::Bytes(v) } => {
                let tag: u8 = *t;
                if tag == 1 {
                    if csr_der.is_some() {
                        return Err(NocError::NocsrParse(NocsrFault::Duplicate("csr")));
                    }
                    csr_der = Some(slice_to_vec(v.as_slice()));
                } else if tag == 2 {
                    if csr_nonce.is_some() {
                        return Err(NocError::NocsrParse(NocsrFault::Duplicate("csr_nonce")));
                    }
                    if v.len() != 32 {
                        return Err(NocError::NocsrParse(NocsrFault::NonceLength));
                    }
                    csr_nonce = Some(to_32(v));
                } else if tag == 3 {
                    if vr1.is_some() {
                        return Err(NocError::NocsrParse(NocsrFault::Duplicate("vendor_reserved_1")));
                    }
                    vr1 = Some(slice_to_vec(v.as_slice()));
                } else if tag == 4 {
                    if vr2.is_some() {
                        return Err(NocError::NocsrParse(NocsrFault::Duplicate("vendor_reserved_2")));
                    }
                    vr2 = Some(slice_to_vec(v.as_slice()));
                } else if tag == 5 {
                    if vr3.is_some() {
                        return Err(NocError::NocsrParse(NocsrFault::Duplicate("vendor_reserved_3")));
                    }
                    vr3 = Some(slice_to_vec(v.as_slice()));
                } else {
                    return Err(NocError::NocsrParse(NocsrFault::UnknownTag(tag)));
                }
            },
            _ => {
                return Err(NocError::NocsrParse(NocsrFault::UnexpectedElement));
            },
        }
        i = i + 1;
    }
    proof {
        assert(items.take(i as int) =~= items);
    }
    match ending {
        Ending::Fault(e) => {
            return Err(NocError::NocsrParse(NocsrFault::Codec(e)));
        },
        Ending::Eof => {
            return Err(NocError::NocsrParse(NocsrFault::Unclosed));
        },
        Ending::Closed => {},
    }
    match csr_der {
        None => Err(NocError::NocsrParse(NocsrFault::Missing("csr"))),
        Some(csr_der) => match csr_nonce {
            None => Err(NocError::NocsrParse(NocsrFault::Missing("csr_nonce"))),
            Some(csr_nonce) => Ok(
                NocsrElements {
                    csr_der,
                    csr_nonce,
                    vendor_reserved_1: vr1,
                    vendor_reserved_2: vr2,
                    vendor_reserved_3: vr3,
                },
            ),
        },
    }
}

/// The parts of a PKCS#10 request that its verification needs.
#[derive(Debug, Clone, PartialEq, Eq)]
pub struct CsrParts {
    /// What stands behind the request.
    pub rest: Vec<u8>,
    /// The bits of the subject public key.
    pub public_key: Vec<u8>,
    /// The DER of the signed part.
    pub signed: Vec<u8>,
    /// The bits of the signature.
    pub signature: Vec<u8>,
}

/// The model of the parts of a PKCS#10 request.
#[verifier::ext_equal]
pub struct CsrPartsView {
    /// What stands behind the request.
    pub rest: Seq<u8>,
    /// The bits of the subject public key.
    pub public_key: Seq<u8>,
    /// The DER of the signed part.
    pub signed: Seq<u8>,
    /// The bits of the signature.
    pub signature: Seq<u8>,
}

impl View for CsrParts {
    type V = CsrPartsView;

    open spec fn view(&self) -> CsrPartsView {
        CsrPartsView {
            rest: self.rest@,
            public_key: self.public_key@,
            signed: self.signed@,
            signature: self.signature@,
        }
    }
}

/// The parts of the PKCS#10 request at the front of `der`, if one stands there.
pub uninterp spec fn pkcs10_request(der: Seq<u8>) -> Option<CsrPartsView>;

/// Calls `x509_parser`'s `X509CertificationRequest::from_der` and takes the parts
/// out of what it returns. They depend on the DER alone, and the signed part is
/// a piece of it.
#[verifier::external_body]
fn parse_pkcs10(der: &[u8]) -> (parts: Option<CsrParts>)
    ensures
        match parts {
            Some(p) => pkcs10_request(der@) == Some(p@) && p.signed@.len() <= der@.len(),
            None => pkcs10_request(der@) is None,
        },
{
    let (rest, csr) = match X509CertificationRequest::from_der(der) {
        Ok(parsed) => parsed,
        Err(_) => return None,
    };
    let info = &csr.certification_request_info;
    Some(CsrParts {
        rest: rest.to_vec(),
        public_key: info.subject_pki.subject_public_key.data.as_ref().to_vec(),
        signed: info.raw.to_vec(),
        signature: csr.signature_value.data.as_ref().to_vec(),
    })
}

/// What the parts of a request say about the key that it is for: nothing may
/// stand behind the request, and the key is an uncompressed point.
pub open spec fn csr_key_fault(parts: CsrPartsView) -> Option<NocError> {
    if parts.rest.len() > 0 {
        Some(NocError::CsrParse(CsrFault::TrailingBytes))
    } else if parts.public_key.len() != 65 || parts.public_key[0] != 4 {
        Some(NocError::InvalidCsrPublicKey)
    } else {
        None
    }
}

/// The key that a request is for.
pub fn csr_key(parts: &CsrParts) -> (r: Result<PublicKey, NocError>)
    ensures
        match csr_key_fault(parts@) {
            Some(e) => r == Err::<PublicKey, NocError>(e),
            None => r matches Ok(key) && key@ == parts.public_key@,
        },
{
    if parts.rest.len() > 0 {
        return Err(NocError::CsrParse(CsrFault::TrailingBytes));
    }
    match PublicKey::from_slice(parts.public_key.as_slice()) {
        None => Err(NocError::InvalidCsrPublicKey),
        Some(key) => Ok(key),
    }
}

/// The verdict on a PKCS#10 request: the key that it is for, or the first check
/// that it fails.
pub open spec fn csr_verdict(parts: Option<CsrPartsView>) -> Result<Seq<u8>, NocError> {
    match parts {
        None => Err(NocError::CsrParse(CsrFault::Der)),
        Some(p) => match csr_key_fault(p) {
            Some(e) => Err(e),
            None => if p256_der_signature_valid(p.public_key, p.signed, p.signature) {
                Ok(p.public_key)
            } else {
                Err(NocError::BadCsrSelfSignature)
            },
        },
    }
}

/// Parses a PKCS#10 request and verifies its self-signature.
pub fn parse_and_verify_csr(csr_der: &[u8]) -> (r: Result<ParsedCsr, NocError>)
    requires
        csr_der@.len() < DIGEST_INPUT_LIMIT,
    ensures
        match csr_verdict(pkcs10_request(csr_der@)) {
            Err(e) => r == Err::<ParsedCsr, NocError>(e),
            Ok(key) => r matches Ok(csr) && csr.public_key@ == key,
        },
{
    let parts = match parse_pkcs10(csr_der) {
        None => {
            return Err(NocError::CsrParse(CsrFault::Der));
        },
        Some(parts) => parts,
    };
    let public_key = match csr_key(&parts) {
        Err(e) => {
            return Err(e);
        },
        Ok(key) => key,
    };
    if verify_p256_der(
        public_key.as_bytes().as_slice(),
        parts.signed.as_slice(),
        parts.signature.as_slice(),
    ) {
        Ok(ParsedCsr { public_key })
    } else {
        Err(NocError::BadCsrSelfSignature)
    }
}

/// Compares two nonces in time that does not depend on where they differ.
pub fn ct_eq(a: &[u8; 32], b: &[u8; 32]) -> (equal: bool)
    ensures
        equal == (a@ == b@),
{
    let mut diff: u8 = 0;
    let mut i: usize = 0;
    while i < 32
        invariant
            i <= 32,
            (diff == 0) == (forall|j: int| 0 <= j < i ==> a@[j] == b@[j]),
        decreases 32 - i,
    {
        let x: u8 = a[i];
        let y: u8 = b[i];
        let before: u8 = diff;
        diff = before | (x ^ y);
        assert(((before | (x ^ y)) == 0) == (before == 0 && x == y)) by (bit_vector);
        i = i + 1;
    }
    proof {
        if diff == 0 {
            assert(a@ =~= b@);
        }
    }
    diff == 0
}

/// The verdict on a CSR response: the operational key of the device, or the
/// first check that the response fails. The elements have to parse, the request
/// in them has to verify, the nonce has to be the expected one, and the
/// attestation key has to have signed the elements and the challenge.
pub open spec fn csr_response_verdict(
    elements: Result<NocsrView, NocsrFault>,
    csr: Result<Seq<u8>, NocError>,
    expected_nonce: Seq<u8>,
    attested: bool,
) -> Result<Seq<u8>, NocError> {
    match elements {
        Err(e) => Err(NocError::NocsrParse(e)),
        Ok(view) => match csr {
            Err(e) => Err(e),
            Ok(key) => if view.csr_nonce != expected_nonce {
                Err(NocError::NonceMismatch)
            } else if !attested {
                Err(NocError::BadCsrAttestationSignature)
            } else {
                Ok(key)
            },
        },
    }
}

/// The verdict on the elements of a CSR and what the checks of its signatures
/// found.
pub fn conclude_csr_response(
    elements: &NocsrElements,
    csr: Result<ParsedCsr, NocError>,
    expected_csr_nonce: &[u8; 32],
    attested: bool,
) -> (r: Result<VerifiedCsr, NocError>)
    ensures
        ({
            let key = match csr {
                Ok(parsed) => Ok(parsed.public_key@),
                Err(e) => Err(e),
            };
            match csr_response_verdict(Ok(elements@), key, expected_csr_nonce@, attested) {
                Err(e) => r == Err::<VerifiedCsr, NocError>(e),
                Ok(key) => r matches Ok(verified) && verified.public_key@ == key,
            }
        }),
{
    match csr {
        Err(e) => Err(e),
        Ok(parsed) => {
            if !ct_eq(&elements.csr_nonce, expected_csr_nonce) {
                Err(NocError::NonceMismatch)
            } else if !attested {
                Err(NocError::BadCsrAttestationSignature)
            } else {
                Ok(VerifiedCsr { public_key: parsed.public_key })
            }
        },
    }
}

/// The DER of the request in the elements of a CSR.
pub open spec fn embedded_csr(elements_tlv: Seq<u8>) -> Seq<u8> {
    match nocsr(elements_tlv) {
        Ok(view) => view.csr_der,
        Err(_) => Seq::empty(),
    }
}

/// What comes of a CSR response: the operational key of the device, or the first
/// check that the response fails.
pub open spec fn csr_outcome(
    elements_tlv: Seq<u8>,
    signature: Seq<u8>,
    expected_nonce: Seq<u8>,
    challenge: Seq<u8>,
    dac_public_key: Seq<u8>,
) -> Result<Seq<u8>, NocError> {
    csr_response_verdict(
        nocsr(elements_tlv),
        csr_verdict(pkcs10_request(embedded_csr(elements_tlv))),
        expected_nonce,
        dac_signature_valid(elements_tlv, challenge, dac_public_key, signature),
    )
}

/// Verifies a CSR response: the self-signature of the embedded request, the
/// echoed nonce, and the attestation signature over elements and challenge.
pub fn verify_csr_response(
    elements_tlv: &[u8],
    attestation_signature: &[u8; 64],
    expected_csr_nonce: &[u8; 32],
    attestation_challenge: &[u8; 16],
    dac_public_key: &[u8],
) -> (r: Result<VerifiedCsr, NocError>)
    requires
        elements_tlv@.len() + 16 < DIGEST_INPUT_LIMIT,
    ensures
        match csr_response_verdict(
            nocsr(elements_tlv@),
            csr_verdict(pkcs10_request(embedded_csr(elements_tlv@))),
            expected_csr_nonce@,
            dac_signature_valid(
                elements_tlv@,
                attestation_challenge@,
                dac_public_key@,
                attestation_signature@,
            ),
        ) {
            Err(e) => r == Err::<VerifiedCsr, NocError>(e),
            Ok(key) => r matches Ok(verified) && verified.public_key@ == key,
        },
        match csr_outcome(
            elements_tlv@,
            attestation_signature@,
            expected_csr_nonce@,
            attestation_challenge@,
            dac_public_key@,
        ) {
            Err(e) => r == Err::<VerifiedCsr, NocError>(e),
            Ok(key) => r matches Ok(verified) && verified.public_key@ == key,
        },
{
    let elements = match parse_nocsr(elements_tlv) {
        Err(e) => {
            return Err(e);
        },
        Ok(elements) => elements,
    };
    proof {
        lemma_field_bound(elements_tlv@, 1);
    }
    let csr = parse_and_verify_csr(elements.csr_der.as_slice());
    let attested = verify_dac_signed_elements(
        elements_tlv,
        attestation_challenge,
        dac_public_key,
        attestation_signature,
    ).is_ok();
    conclude_csr_response(&elements, csr, expected_csr_nonce, attested)
}

/// A verified CSR has passed all three checks: the request carries a valid
/// signature of its own key, the nonce is the expected one, and the attestation
/// key signed the elements and the challenge.
pub proof fn law_verified_csr(
    elements_tlv: Seq<u8>,
    expected_nonce: Seq<u8>,
    challenge: Seq<u8>,
    dac_public_key: Seq<u8>,
    signature: Seq<u8>,
)
    requires
        csr_response_verdict(
            nocsr(elements_tlv),
            csr_verdict(pkcs10_request(embedded_csr(elements_tlv))),
            expected_nonce,
            dac_signature_valid(elements_tlv, challenge, dac_public_key, signature),
        ) is Ok,
    ensures
        nocsr(elements_tlv) matches Ok(view) && view.csr_nonce == expected_nonce,
        pkcs10_request(embedded_csr(elements_tlv)) matches Some(parts) && p256_der_signature_valid(
            parts.public_key,
            parts.signed,
            parts.signature,
        ),
        p256_fixed_signature_valid(dac_public_key, elements_tlv + challenge, signature),
{
}

/// The members that the elements of a CSR are written with.
pub open spec fn nocsr_items(view: NocsrView) -> Seq<Item> {
    let octets = |v: Option<Seq<u8>>|
        match v {
            Some(octets) => Some(Scalar::Bytes(octets)),
            None => None,
        };
    seq![at(1, Scalar::Bytes(view.csr_der)), at(2, Scalar::Bytes(view.csr_nonce))] + optional(
        3,
        octets(view.vendor_reserved_1),
    ) + optional(4, octets(view.vendor_reserved_2)) + optional(5, octets(view.vendor_reserved_3))
}

/// Whether octets that may be absent can be written.
pub open spec fn writable(octets: Option<Seq<u8>>) -> bool {
    octets matches Some(v) ==> v.len() <= u64::MAX
}

/// What the members say so far, under each of the tags of the elements of a CSR.
spec fn nocsr_holds(members: Seq<Item>, view: NocsrView, upto: u8) -> bool {
    &&& first_fault(members, |before: Seq<Item>, item: Item| nocsr_rule(before, item)) is None
    &&& bytes_field(members, 1) == Some(view.csr_der)
    &&& bytes_field(members, 2) == Some(view.csr_nonce)
    &&& bytes_field(members, 3) == (if upto >= 3 {
        view.vendor_reserved_1
    } else {
        None
    })
    &&& bytes_field(members, 4) == (if upto >= 4 {
        view.vendor_reserved_2
    } else {
        None
    })
    &&& bytes_field(members, 5) == (if upto >= 5 {
        view.vendor_reserved_3
    } else {
        None
    })
    &&& forall|i: int|
        0 <= i < members.len() ==> encodable(#[trigger] members[i]) && !(members[i] is End)
}

/// One more vendor field.
proof fn lemma_vendor_field(members: Seq<Item>, view: NocsrView, tag: u8, octets: Option<Seq<u8>>)
    requires
        3 <= tag <= 5,
        nocsr_holds(members, view, (tag - 1) as u8),
        octets == (if tag == 3 {
            view.vendor_reserved_1
        } else if tag == 4 {
            view.vendor_reserved_2
        } else {
            view.vendor_reserved_3
        }),
        writable(octets),
    ensures
        nocsr_holds(
            members + optional(
                tag,
                match octets {
                    Some(v) => Some(Scalar::Bytes(v)),
                    None => None,
                },
            ),
            view,
            tag,
        ),
{
    match octets {
        Some(v) => {
            let item = at(tag, Scalar::Bytes(v));
            assert(members + optional(tag, Some(Scalar::Bytes(v))) =~= members.push(item));
            lemma_nocsr_push(members, item);
        },
        None => {
            assert(members + optional(tag, None) =~= members);
        },
    }
}

/// What one more member adds to the elements of a CSR.
proof fn lemma_nocsr_push(members: Seq<Item>, item: Item)
    ensures
        forall|tag: u8|
            #[trigger] bytes_field(members.push(item), tag) == (match bytes_at(item, tag) {
                Some(v) => Some(v),
                None => bytes_field(members, tag),
            }),
        first_fault(
            members.push(item),
            |before: Seq<Item>, item: Item| nocsr_rule(before, item),
        ) == (match first_fault(
            members,
            |before: Seq<Item>, item: Item| nocsr_rule(before, item),
        ) {
            Some(e) => Some(e),
            None => nocsr_rule(members, item),
        }),
{
    lemma_fault_push(members, item, |before: Seq<Item>, item: Item| nocsr_rule(before, item));
    assert forall|tag: u8|
        #[trigger] bytes_field(members.push(item), tag) == (match bytes_at(item, tag) {
            Some(v) => Some(v),
            None => bytes_field(members, tag),
        }) by {
        lemma_field_push(members, item, |i: Item| bytes_at(i, tag));
    }
}

/// The elements of a CSR are read as they were written.
pub proof fn law_nocsr_is_read(view: NocsrView)
    requires
        view.csr_der.len() <= u64::MAX,
        view.csr_nonce.len() == 32,
        writable(view.vendor_reserved_1),
        writable(view.vendor_reserved_2),
        writable(view.vendor_reserved_3),
    ensures
        nocsr(structure(nocsr_items(view))) == Ok::<NocsrView, NocsrFault>(view),
{
    let nothing = Seq::<Item>::empty();
    let first = at(1, Scalar::Bytes(view.csr_der));
    let second = at(2, Scalar::Bytes(view.csr_nonce));
    lemma_nocsr_push(nothing, first);
    lemma_nocsr_push(nothing.push(first), second);
    let two = nothing.push(first).push(second);
    assert(two =~= seq![first, second]);
    assert(nocsr_holds(two, view, 2));
    let octets = |v: Option<Seq<u8>>|
        match v {
            Some(octets) => Some(Scalar::Bytes(octets)),
            None => None,
        };
    lemma_vendor_field(two, view, 3, view.vendor_reserved_1);
    let three = two + optional(3, octets(view.vendor_reserved_1));
    lemma_vendor_field(three, view, 4, view.vendor_reserved_2);
    let four = three + optional(4, octets(view.vendor_reserved_2));
    lemma_vendor_field(four, view, 5, view.vendor_reserved_3);
    let five = four + optional(5, octets(view.vendor_reserved_3));
    assert(five =~= nocsr_items(view));
    lemma_written_structure(five);
}

/// The elements of a CSR that are accepted hold the request under tag 1, the
/// nonce of 32 bytes under tag 2 and the vendor's octets under tags 3, 4 and 5.
pub proof fn law_nocsr_fields(tlv: Seq<u8>)
    ensures
        nocsr(tlv) matches Ok(view) ==> {
            &&& view.csr_nonce.len() == 32
            &&& opening(decode_all(tlv)) matches Opening::Members(members, ending)
            &&& ending == Ending::Closed
            &&& bytes_field(members, 1) == Some(view.csr_der)
            &&& bytes_field(members, 2) == Some(view.csr_nonce)
            &&& bytes_field(members, 3) == view.vendor_reserved_1
            &&& bytes_field(members, 4) == view.vendor_reserved_2
            &&& bytes_field(members, 5) == view.vendor_reserved_3
        },
{
    if let Opening::Members(members, _) = opening(decode_all(tlv)) {
        if nocsr(tlv) is Ok {
            lemma_nonce_length(members);
        }
    }
}

/// Without an objection the nonce has 32 bytes.
proof fn lemma_nonce_length(members: Seq<Item>)
    requires
        first_fault(members, |before: Seq<Item>, item: Item| nocsr_rule(before, item)) is None,
    ensures
        bytes_field(members, 2) matches Some(nonce) ==> nonce.len() == 32,
    decreases members.len(),
{
    if members.len() > 0 {
        lemma_nonce_length(members.drop_last());
    }
}

/// What a member of the elements of a CSR has to be: octets under a tag from 1 to
/// 5 that none before it has, 32 of them under tag 2.
pub proof fn law_nocsr_members(before: Seq<Item>, item: Item)
    ensures
        nocsr_rule(before, item) is None <==> (item matches Item::Scalar {
            tag: Tag::Context(t),
            value: Scalar::Bytes(v),
        } && 1 <= t <= 5 && bytes_field(before, t) is None && (t == 2 ==> v.len() == 32)),
{
}

/// A request verifies exactly if it is one, nothing stands behind it, its key is
/// an uncompressed point, and its signature over its signed part is valid under
/// that key; the key is then what comes of it.
pub proof fn law_csr_checks(parts: CsrPartsView)
    ensures
        csr_verdict(None) is Err,
        csr_verdict(Some(parts)) is Ok <==> parts.rest.len() == 0 && parts.public_key.len() == 65
            && parts.public_key[0] == 4 && p256_der_signature_valid(
            parts.public_key,
            parts.signed,
            parts.signature,
        ),
        csr_verdict(Some(parts)) matches Ok(key) ==> key == parts.public_key,
        parts.rest.len() > 0 ==> csr_verdict(Some(parts)) == Err::<Seq<u8>, NocError>(
            NocError::CsrParse(CsrFault::TrailingBytes),
        ),
{
}

/// A CSR response is accepted exactly if its elements parse, its request
/// verifies, it echoes the nonce and the attestation key signed it; the key of the
/// request is then what comes of it. A wrong nonce is named before a wrong
/// signature, and both after anything wrong with the request.
pub proof fn law_csr_response_checks(
    elements: Result<NocsrView, NocsrFault>,
    csr: Result<Seq<u8>, NocError>,
    expected_nonce: Seq<u8>,
    attested: bool,
)
    ensures
        ({
            let verdict = csr_response_verdict(elements, csr, expected_nonce, attested);
            &&& verdict is Ok <==> elements is Ok && csr is Ok && elements->Ok_0.csr_nonce
                == expected_nonce && attested
            &&& verdict is Ok ==> verdict == csr
            &&& elements matches Err(fault) ==> verdict == Err::<Seq<u8>, NocError>(
                NocError::NocsrParse(fault),
            )
            &&& elements is Ok && csr is Err ==> verdict == csr
            &&& elements is Ok && csr is Ok && elements->Ok_0.csr_nonce != expected_nonce
                ==> verdict == Err::<Seq<u8>, NocError>(NocError::NonceMismatch)
            &&& elements is Ok && csr is Ok && elements->Ok_0.csr_nonce == expected_nonce
                && !attested ==> verdict == Err::<Seq<u8>, NocError>(
                NocError::BadCsrAttestationSignature,
            )
        }),
{
}

/// The key of a verified CSR is the one in the request that the elements hold
/// under tag 1.
pub proof fn law_verified_key(elements_tlv: Seq<u8>, expected_nonce: Seq<u8>, attested: bool)
    ensures
        csr_response_verdict(
            nocsr(elements_tlv),
            csr_verdict(pkcs10_request(embedded_csr(elements_tlv))),
            expected_nonce,
            attested,
        ) matches Ok(key) ==> {
            &&& opening(decode_all(elements_tlv)) matches Opening::Members(members, _)
            &&& bytes_field(members, 1) matches Some(der)
            &&& pkcs10_request(der) matches Some(parts)
            &&& key == parts.public_key
            &&& key.len() == 65
            &&& key[0] == 4
            &&& p256_der_signature_valid(key, parts.signed, parts.signature)
            &&& bytes_field(members, 2) == Some(expected_nonce)
            &&& attested
        },
{
}

/// A CSR response gives a key exactly if the device's attestation key signed the
/// elements and, behind them, the challenge, the elements hold the expected nonce
/// under tag 2, and the request under tag 1 is signed with the key that it is for;
/// that key is what it gives.
pub proof fn law_csr_response(
    elements_tlv: Seq<u8>,
    signature: Seq<u8>,
    expected_nonce: Seq<u8>,
    challenge: Seq<u8>,
    dac_public_key: Seq<u8>,
)
    ensures
        csr_outcome(
            elements_tlv,
            signature,
            expected_nonce,
            challenge,
            dac_public_key,
        ) matches Ok(key) ==> {
            &&& p256_fixed_signature_valid(dac_public_key, elements_tlv + challenge, signature)
            &&& opening(decode_all(elements_tlv)) matches Opening::Members(members, _)
            &&& bytes_field(members, 2) == Some(expected_nonce)
            &&& bytes_field(members, 1) matches Some(der)
            &&& pkcs10_request(der) matches Some(parts)
            &&& key == parts.public_key
            &&& p256_der_signature_valid(key, parts.signed, parts.signature)
        },
        !p256_fixed_signature_valid(dac_public_key, elements_tlv + challenge, signature)
            ==> csr_outcome(
            elements_tlv,
            signature,
            expected_nonce,
            challenge,
            dac_public_key,
        ) is Err,
        p256_fixed_signature_valid(dac_public_key, elements_tlv + challenge, signature) && (nocsr(
            elements_tlv,
        ) matches Ok(view) && view.csr_nonce == expected_nonce && csr_verdict(
            pkcs10_request(view.csr_der),
        ) is Ok) ==> csr_outcome(
            elements_tlv,
            signature,
            expected_nonce,
            challenge,
            dac_public_key,
        ) is Ok,
{
}

} // verus!
