//! Command payloads of the `OperationalCredentials` cluster (`0x003E`).

use crate::attestation::response::AttestationResponse;
use crate::noc::error::NocError;
use crate::tlv::members::{
    bytes_at, bytes_field, element_bytes, element_uint, element_utf8, first_fault, items_of,
    lemma_fault_push, lemma_field_push, lemma_first_fault_prefix, lemma_next_member,
    lemma_written_structure, open_structure, opening, optional, structure, uint_at, uint_field,
    utf8_at, utf8_field, Ending, Opened, Opening,
};
use crate::tlv::{at, decode_all, encode_all, struct_start, Item, Scalar, Tag, TlvError, TlvWriter};
use vstd::prelude::*;
use vstd::slice::slice_to_vec;
use vstd::utf8::encode_utf8;

verus! {

/// A decoded `CSRResponse`.
#[derive(Debug, Clone, PartialEq, Eq)]
pub struct CsrResponse {
    /// The CSR elements, still encoded.
    pub nocsr_elements: Vec<u8>,
    /// The signature of the device's attestation key over the elements and the
    /// challenge of the session: 32 bytes of `r`, then 32 bytes of `s`.
    pub attestation_signature: [u8; 64],
}

/// A decoded `NOCResponse`.
#[derive(Debug, Clone, PartialEq, Eq)]
pub struct NocResponse {
    /// The outcome; zero for success.
    pub status: u8,
    /// The index that the device gave the fabric.
    pub fabric_index: Option<u8>,
    /// Text for an operator.
    pub debug_text: Option<String>,
}

/// Which certificate of the attestation chain is asked for.
#[derive(Copy, Clone, Debug, PartialEq, Eq)]
pub enum CertChainType {
    /// The device's own certificate.
    Dac,
    /// The certificate that issued it.
    Pai,
}

/// A decoded `CertificateChainResponse`.
#[derive(Debug, Clone, PartialEq, Eq)]
pub struct CertificateChainResponse {
    /// The DER of the certificate.
    pub certificate: Vec<u8>,
}

impl CertChainType {
    /// The number of the type on the wire.
    pub open spec fn number(self) -> u8 {
        match self {
            CertChainType::Dac => 1,
            CertChainType::Pai => 2,
        }
    }
}

/// The items of `AttestationRequest`.
pub open spec fn attestation_request_items(nonce: Seq<u8>) -> Seq<Item> {
    seq![struct_start(), at(0, Scalar::Bytes(nonce)), Item::End]
}

/// Encodes `AttestationRequest`: the nonce under tag 0.
pub fn encode_attestation_request(nonce: &[u8; 32]) -> (tlv: Vec<u8>)
    ensures
        tlv@ == encode_all(attestation_request_items(nonce@)),
{
    let mut w = TlvWriter::new();
    w.start_structure(Tag::Anonymous);
    w.put_bytes(Tag::Context(0), nonce.as_slice());
    w.end_container();
    proof {
        assert(w@ =~= attestation_request_items(nonce@));
    }
    w.finish()
}

/// The items of `CertificateChainRequest`.
pub open spec fn chain_request_items(cert_type: CertChainType) -> Seq<Item> {
    seq![struct_start(), at(0, Scalar::Uint(cert_type.number() as u64)), Item::End]
}

/// Encodes `CertificateChainRequest`: the type under tag 0.
pub fn encode_certificate_chain_request(cert_type: CertChainType) -> (tlv: Vec<u8>)
    ensures
        tlv@ == encode_all(chain_request_items(cert_type)),
{
    let number: u8 = match cert_type {
        CertChainType::Dac => 1,
        CertChainType::Pai => 2,
    };
    let mut w = TlvWriter::new();
    w.start_structure(Tag::Anonymous);
    w.put_uint(Tag::Context(0), number as u64);
    w.end_container();
    proof {
        assert(w@ =~= chain_request_items(cert_type));
    }
    w.finish()
}

/// The items of `CSRRequest`.
pub open spec fn csr_request_items(nonce: Seq<u8>, is_for_update_noc: bool) -> Seq<Item> {
    if is_for_update_noc {
        seq![
            struct_start(),
            at(0, Scalar::Bytes(nonce)),
            at(1, Scalar::Bool(true)),
            Item::End,
        ]
    } else {
        seq![struct_start(), at(0, Scalar::Bytes(nonce)), Item::End]
    }
}

/// Encodes `CSRRequest`: the nonce under tag 0 and, only if the CSR is for an
/// update, a flag under tag 1.
pub fn encode_csr_request(nonce: &[u8; 32], is_for_update_noc: bool) -> (tlv: Vec<u8>)
    ensures
        tlv@ == encode_all(csr_request_items(nonce@, is_for_update_noc)),
{
    let mut w = TlvWriter::new();
    w.start_structure(Tag::Anonymous);
    w.put_bytes(Tag::Context(0), nonce.as_slice());
    if is_for_update_noc {
        w.put_bool(Tag::Context(1), true);
    }
    w.end_container();
    proof {
        assert(w@ =~= csr_request_items(nonce@, is_for_update_noc));
    }
    w.finish()
}

/// The items of `AddTrustedRootCertificate`.
pub open spec fn trusted_root_items(rcac_tlv: Seq<u8>) -> Seq<Item> {
    seq![struct_start(), at(0, Scalar::Bytes(rcac_tlv)), Item::End]
}

/// Encodes `AddTrustedRootCertificate`: the root certificate under tag 0.
pub fn encode_add_trusted_root(rcac_tlv: &[u8]) -> (tlv: Vec<u8>)
    ensures
        tlv@ == encode_all(trusted_root_items(rcac_tlv@)),
{
    let mut w = TlvWriter::new();
    w.start_structure(Tag::Anonymous);
    w.put_bytes(Tag::Context(0), rcac_tlv);
    w.end_container();
    proof {
        assert(w@ =~= trusted_root_items(rcac_tlv@));
    }
    w.finish()
}

/// The item of an optional intermediate certificate.
pub open spec fn icac_items(icac_tlv: Option<&[u8]>) -> Seq<Item> {
    match icac_tlv {
        Some(icac) => seq![at(1, Scalar::Bytes(icac@))],
        None => Seq::empty(),
    }
}

/// The items of `AddNOC`.
pub open spec fn add_noc_items(
    noc_tlv: Seq<u8>,
    icac_tlv: Option<&[u8]>,
    ipk: Seq<u8>,
    case_admin_subject: u64,
    admin_vendor_id: u16,
) -> Seq<Item> {
    seq![struct_start(), at(0, Scalar::Bytes(noc_tlv))] + icac_items(icac_tlv) + seq![
        at(2, Scalar::Bytes(ipk)),
        at(3, Scalar::Uint(case_admin_subject)),
        at(4, Scalar::Uint(admin_vendor_id as u64)),
        Item::End,
    ]
}

/// Encodes `AddNOC`.
pub fn encode_add_noc(
    noc_tlv: &[u8],
    icac_tlv: Option<&[u8]>,
    ipk: &[u8; 16],
    case_admin_subject: u64,
    admin_vendor_id: u16,
) -> (tlv: Vec<u8>)
    ensures
        tlv@ == encode_all(
            add_noc_items(noc_tlv@, icac_tlv, ipk@, case_admin_subject, admin_vendor_id),
        ),
{
    let mut w = TlvWriter::new();
    w.start_structure(Tag::Anonymous);
    w.put_bytes(Tag::Context(0), noc_tlv);
    if let Some(icac) = icac_tlv {
        w.put_bytes(Tag::Context(1), icac);
    }
    w.put_bytes(Tag::Context(2), ipk.as_slice());
    w.put_uint(Tag::Context(3), case_admin_subject);
    w.put_uint(Tag::Context(4), admin_vendor_id as u64);
    w.end_container();
    proof {
        assert(w@ =~= add_noc_items(
            noc_tlv@,
            icac_tlv,
            ipk@,
            case_admin_subject,
            admin_vendor_id,
        ));
    }
    w.finish()
}

/// The items of `UpdateNOC`.
pub open spec fn update_noc_items(noc_tlv: Seq<u8>, icac_tlv: Option<&[u8]>) -> Seq<Item> {
    seq![struct_start(), at(0, Scalar::Bytes(noc_tlv))] + icac_items(icac_tlv) + seq![Item::End]
}

/// Encodes `UpdateNOC`.
pub fn encode_update_noc(noc_tlv: &[u8], icac_tlv: Option<&[u8]>) -> (tlv: Vec<u8>)
    ensures
        tlv@ == encode_all(update_noc_items(noc_tlv@, icac_tlv)),
{
    let mut w = TlvWriter::new();
    w.start_structure(Tag::Anonymous);
    w.put_bytes(Tag::Context(0), noc_tlv);
    if let Some(icac) = icac_tlv {
        w.put_bytes(Tag::Context(1), icac);
    }
    w.end_container();
    proof {
        assert(w@ =~= update_noc_items(noc_tlv@, icac_tlv));
    }
    w.finish()
}

/// The error for members that have no end.
pub open spec fn ending_error(ending: Ending) -> Option<NocError> {
    match ending {
        Ending::Closed => None,
        Ending::Eof => Some(NocError::ClusterCodec(TlvError::UnclosedContainer)),
        Ending::Fault(e) => Some(NocError::ClusterCodec(e)),
    }
}

fn check_ending(ending: Ending) -> (e: Option<NocError>)
    ensures
        e == ending_error(ending),
{
    match ending {
        Ending::Closed => None,
        Ending::Eof => Some(NocError::ClusterCodec(TlvError::UnclosedContainer)),
        Ending::Fault(e) => Some(NocError::ClusterCodec(e)),
    }
}

/// The texts of the errors of a response that is an octet string under tag 0
/// and a signature of 64 bytes under tag 1.
pub struct SignedTexts {
    /// The response is no anonymous structure.
    pub not_structure: &'static str,
    /// The octet string occurs twice.
    pub duplicate_body: &'static str,
    /// The signature occurs twice.
    pub duplicate_signature: &'static str,
    /// The signature has the wrong length.
    pub signature_length: &'static str,
    /// The octet string is absent.
    pub missing_body: &'static str,
    /// The signature is absent.
    pub missing_signature: &'static str,
}

/// What a signed response holds: its body and its signature.
pub type SignedView = Result<(Seq<u8>, Seq<u8>), NocError>;

/// The objections against a member of a signed response: a field may not
/// occur twice, and a signature has 64 bytes.
pub open spec fn signed_rule(
    texts: SignedTexts,
    before: Seq<Item>,
    item: Item,
) -> Option<NocError> {
    if bytes_at(item, 0) is Some {
        if bytes_field(before, 0) is Some {
            Some(NocError::MalformedResponse(texts.duplicate_body))
        } else {
            None
        }
    } else if bytes_at(item, 1) is Some {
        if bytes_field(before, 1) is Some {
            Some(NocError::MalformedResponse(texts.duplicate_signature))
        } else if bytes_at(item, 1)->0.len() != 64 {
            Some(NocError::MalformedResponse(texts.signature_length))
        } else {
            None
        }
    } else {
        None
    }
}

/// What a signed response holds.
pub open spec fn signed_response(texts: SignedTexts, tlv: Seq<u8>) -> SignedView {
    match opening(decode_all(tlv)) {
        Opening::Fault(e) => Err(NocError::ClusterCodec(e)),
        Opening::NotStructure => Err(NocError::MalformedResponse(texts.not_structure)),
        Opening::Members(members, ending) => {
            match first_fault(
                members,
                |before: Seq<Item>, item: Item| signed_rule(texts, before, item),
            ) {
                Some(e) => Err(e),
                None => match ending_error(ending) {
                    Some(e) => Err(e),
                    None => match (bytes_field(members, 0), bytes_field(members, 1)) {
                        (None, _) => Err(NocError::MalformedResponse(texts.missing_body)),
                        (Some(_), None) => {
                            Err(NocError::MalformedResponse(texts.missing_signature))
                        },
                        (Some(body), Some(signature)) => Ok((body, signature)),
                    },
                },
            }
        },
    }
}

/// The first 64 bytes of a vector.
fn to_64(v: &Vec<u8>) -> (a: [u8; 64])
    requires
        v@.len() == 64,
    ensures
        a@ == v@,
{
    let mut a: [u8; 64] = [0;64];
    let mut i: usize = 0;
    while i < 64
        invariant
            i <= 64,
            v@.len() == 64,
            forall|j: int| 0 <= j < i ==> a@[j] == v@[j],
        decreases 64 - i,
    {
        a[i] = v[i];
        i = i + 1;
    }
    proof {
        assert(a@ =~= v@);
    }
    a
}

/// Decodes a response that is an octet string under tag 0 and a signature under
/// tag 1.
fn decode_signed(texts: &SignedTexts, tlv: &[u8]) -> (r: Result<(Vec<u8>, [u8; 64]), NocError>)
    ensures
        match signed_response(*texts, tlv@) {
            Err(e) => r == Err::<(Vec<u8>, [u8; 64]), NocError>(e),
            Ok((body, signature)) => {
                &&& r matches Ok(v)
                &&& v.0@ == body
                &&& v.1@ == signature
            },
        },
{
    let (members, ending) = match open_structure(tlv) {
        Opened::Fault(e) => {
            return Err(NocError::ClusterCodec(e));
        },
        Opened::NotStructure => {
            return Err(NocError::MalformedResponse(texts.not_structure));
        },
        Opened::Members(members, ending) => (members, ending),
    };
    let ghost items = items_of(members@);
    let ghost rule = |before: Seq<Item>, item: Item| signed_rule(*texts, before, item);
    let mut body: Option<Vec<u8>> = None;
    let mut signature: Option<[u8; 64]> = None;
    let mut i: usize = 0;
    while i < members.len()
        invariant
            i <= members@.len(),
            items == items_of(members@),
            rule == (|before: Seq<Item>, item: Item| signed_rule(*texts, before, item)),
            opening(decode_all(tlv@)) == Opening::Members(items, ending),
            first_fault(items.take(i as int), rule) is None,
            match body {
                Some(v) => bytes_field(items.take(i as int), 0) == Some(v@),
                None => bytes_field(items.take(i as int), 0) is None,
            },
            match signature {
                Some(v) => bytes_field(items.take(i as int), 1) == Some(v@),
                None => bytes_field(items.take(i as int), 1) is None,
            },
        decreases members@.len() - i,
    {
        proof {
            lemma_next_member(members@, i as int);
            if first_fault(items.take(i + 1), rule) is Some {
                lemma_first_fault_prefix(items, i + 1, rule);
            }
        }
        let element = &members[i];
        if let Some(v) = element_bytes(element, 0) {
            if body.is_some() {
                return Err(NocError::MalformedResponse(texts.duplicate_body));
            }
            body = Some(slice_to_vec(v.as_slice()));
        } else if let Some(v) = element_bytes(element, 1) {
            if signature.is_some() {
                return Err(NocError::MalformedResponse(texts.duplicate_signature));
            }
            if v.len() != 64 {
                return Err(NocError::MalformedResponse(texts.signature_length));
            }
            signature = Some(to_64(v));
        }
        i = i + 1;
    }
    proof {
        assert(items.take(i as int) =~= items);
    }
    if let Some(e) = check_ending(ending) {
        return Err(e);
    }
    match body {
        None => Err(NocError::MalformedResponse(texts.missing_body)),
        Some(body) => match signature {
            None => Err(NocError::MalformedResponse(texts.missing_signature)),
            Some(signature) => Ok((body, signature)),
        },
    }
}

/// The error texts of `AttestationResponse`.
pub open spec fn attestation_response_texts() -> SignedTexts {
    SignedTexts {
        not_structure: "AttestationResponse: expected an anonymous structure",
        duplicate_body: "AttestationResponse: duplicate AttestationElements field",
        duplicate_signature: "AttestationResponse: duplicate Signature field",
        signature_length: "AttestationResponse: Signature is not exactly 64 bytes",
        missing_body: "AttestationResponse: missing AttestationElements field",
        missing_signature: "AttestationResponse: missing Signature field",
    }
}

/// The error texts of `CSRResponse`.
pub open spec fn csr_response_texts() -> SignedTexts {
    SignedTexts {
        not_structure: "CSRResponse: expected an anonymous structure",
        duplicate_body: "CSRResponse: duplicate NOCSRElements field",
        duplicate_signature: "CSRResponse: duplicate AttestationSignature field",
        signature_length: "CSRResponse: AttestationSignature is not exactly 64 bytes",
        missing_body: "CSRResponse: missing NOCSRElements field",
        missing_signature: "CSRResponse: missing AttestationSignature field",
    }
}

/// Decodes `AttestationResponse`: the elements under tag 0, the signature under
/// tag 1. Other fields are ignored, containers with all that they hold.
pub fn decode_attestation_response(tlv: &[u8]) -> (r: Result<AttestationResponse, NocError>)
    ensures
        match signed_response(attestation_response_texts(), tlv@) {
            Err(e) => r == Err::<AttestationResponse, NocError>(e),
            Ok((elements, signature)) => {
                &&& r matches Ok(v)
                &&& v.attestation_elements@ == elements
                &&& v.signature@ == signature
            },
        },
{
    let texts = SignedTexts {
        not_structure: "AttestationResponse: expected an anonymous structure",
        duplicate_body: "AttestationResponse: duplicate AttestationElements field",
        duplicate_signature: "AttestationResponse: duplicate Signature field",
        signature_length: "AttestationResponse: Signature is not exactly 64 bytes",
        missing_body: "AttestationResponse: missing AttestationElements field",
        missing_signature: "AttestationResponse: missing Signature field",
    };
    match decode_signed(&texts, tlv) {
        Err(e) => Err(e),
        Ok((attestation_elements, signature)) => Ok(
            AttestationResponse { attestation_elements, signature },
        ),
    }
}

/// Decodes `CSRResponse`: the CSR elements under tag 0, the signature under tag
/// 1. Other fields are ignored, containers with all that they hold.
pub fn decode_csr_response(tlv: &[u8]) -> (r: Result<CsrResponse, NocError>)
    ensures
        match signed_response(csr_response_texts(), tlv@) {
            Err(e) => r == Err::<CsrResponse, NocError>(e),
            Ok((elements, signature)) => {
                &&& r matches Ok(v)
                &&& v.nocsr_elements@ == elements
                &&& v.attestation_signature@ == signature
            },
        },
{
    let texts = SignedTexts {
        not_structure: "CSRResponse: expected an anonymous structure",
        duplicate_body: "CSRResponse: duplicate NOCSRElements field",
        duplicate_signature: "CSRResponse: duplicate AttestationSignature field",
        signature_length: "CSRResponse: AttestationSignature is not exactly 64 bytes",
        missing_body: "CSRResponse: missing NOCSRElements field",
        missing_signature: "CSRResponse: missing AttestationSignature field",
    };
    match decode_signed(&texts, tlv) {
        Err(e) => Err(e),
        Ok((nocsr_elements, attestation_signature)) => Ok(
            CsrResponse { nocsr_elements, attestation_signature },
        ),
    }
}

/// The objection against a member of `CertificateChainResponse`: the
/// certificate may not occur twice.
pub open spec fn chain_response_rule(before: Seq<Item>, item: Item) -> Option<NocError> {
    if bytes_at(item, 0) is Some && bytes_field(before, 0) is Some {
        Some(
            NocError::MalformedResponse("CertificateChainResponse: duplicate Certificate field"),
        )
    } else {
        None
    }
}

/// What a `CertificateChainResponse` holds.
pub open spec fn chain_response(tlv: Seq<u8>) -> Result<Seq<u8>, NocError> {
    match opening(decode_all(tlv)) {
        Opening::Fault(e) => Err(NocError::ClusterCodec(e)),
        Opening::NotStructure => Err(
            NocError::MalformedResponse(
                "CertificateChainResponse: expected an anonymous structure",
            ),
        ),
        Opening::Members(members, ending) => {
            match first_fault(
                members,
                |before: Seq<Item>, item: Item| chain_response_rule(before, item),
            ) {
                Some(e) => Err(e),
                None => match ending_error(ending) {
                    Some(e) => Err(e),
                    None => match bytes_field(members, 0) {
                        None => Err(
                            NocError::MalformedResponse(
                                "CertificateChainResponse: missing Certificate field",
                            ),
                        ),
                        Some(certificate) => Ok(certificate),
                    },
                },
            }
        },
    }
}

/// Decodes `CertificateChainResponse`: the DER under tag 0. Other fields are
/// ignored, containers with all that they hold.
pub fn decode_certificate_chain_response(tlv: &[u8]) -> (r: Result<
    CertificateChainResponse,
    NocError,
>)
    ensures
        match chain_response(tlv@) {
            Err(e) => r == Err::<CertificateChainResponse, NocError>(e),
            Ok(certificate) => r matches Ok(v) && v.certificate@ == certificate,
        },
{
    let (members, ending) = match open_structure(tlv) {
        Opened::Fault(e) => {
            return Err(NocError::ClusterCodec(e));
        },
        Opened::NotStructure => {
            return Err(
                NocError::MalformedResponse(
                    "CertificateChainResponse: expected an anonymous structure",
                ),
            );
        },
        Opened::Members(members, ending) => (members, ending),
    };
    let ghost items = items_of(members@);
    let ghost rule = |before: Seq<Item>, item: Item| chain_response_rule(before, item);
    let mut cert: Option<Vec<u8>> = None;
    let mut i: usize = 0;
    while i < members.len()
        invariant
            i <= members@.len(),
            items == items_of(members@),
            rule == (|before: Seq<Item>, item: Item| chain_response_rule(before, item)),
            opening(decode_all(tlv@)) == Opening::Members(items, ending),
            first_fault(items.take(i as int), rule) is None,
            match cert {
                Some(v) => bytes_field(items.take(i as int), 0) == Some(v@),
                None => bytes_field(items.take(i as int), 0) is None,
            },
        decreases members@.len() - i,
    {
        proof {
            lemma_next_member(members@, i as int);
            if first_fault(items.take(i + 1), rule) is Some {
                lemma_first_fault_prefix(items, i + 1, rule);
            }
        }
        if let Some(v) = element_bytes(&members[i], 0) {
            if cert.is_some() {
                return Err(
                    NocError::MalformedResponse(
                        "CertificateChainResponse: duplicate Certificate field",
                    ),
                );
            }
            cert = Some(slice_to_vec(v.as_slice()));
        }
        i = i + 1;
    }
    proof {
        assert(items.take(i as int) =~= items);
    }
    if let Some(e) = check_ending(ending) {
        return Err(e);
    }
    match cert {
        None => Err(
            NocError::MalformedResponse("CertificateChainResponse: missing Certificate field"),
        ),
        Some(certificate) => Ok(CertificateChainResponse { certificate }),
    }
}

/// The objections against a member of `NOCResponse`: status and index fit in a
/// byte.
pub open spec fn noc_response_rule(item: Item) -> Option<NocError> {
    if uint_at(item, 0) matches Some(v) && v > u8::MAX {
        Some(NocError::MalformedResponse("NOCResponse: StatusCode exceeds u8"))
    } else if uint_at(item, 1) matches Some(v) && v > u8::MAX {
        Some(NocError::MalformedResponse("NOCResponse: FabricIndex exceeds u8"))
    } else {
        None
    }
}

/// The fields of a `NOCResponse`.
pub type NocResponseView = (u8, Option<u8>, Option<Seq<char>>);

/// What a `NOCResponse` holds. There is a fabric index exactly on success. Of a
/// field that occurs more than once the last occurrence counts.
pub open spec fn noc_response(tlv: Seq<u8>) -> Result<NocResponseView, NocError> {
    match opening(decode_all(tlv)) {
        Opening::Fault(e) => Err(NocError::ClusterCodec(e)),
        Opening::NotStructure => Err(
            NocError::MalformedResponse("NOCResponse: expected an anonymous structure"),
        ),
        Opening::Members(members, ending) => {
            match first_fault(members, |before: Seq<Item>, item: Item| noc_response_rule(item)) {
                Some(e) => Err(e),
                None => match ending_error(ending) {
                    Some(e) => Err(e),
                    None => match uint_field(members, 0) {
                        None => Err(
                            NocError::MalformedResponse("NOCResponse: missing StatusCode field"),
                        ),
                        Some(status) => match (status == 0, uint_field(members, 1)) {
                            (true, None) => Err(
                                NocError::MalformedResponse(
                                    "NOCResponse: success without FabricIndex field",
                                ),
                            ),
                            (false, Some(_)) => Err(
                                NocError::MalformedResponse(
                                    "NOCResponse: failure with FabricIndex field",
                                ),
                            ),
                            (_, index) => Ok(
                                (
                                    status as u8,
                                    match index {
                                        Some(index) => Some(index as u8),
                                        None => None,
                                    },
                                    utf8_field(members, 2),
                                ),
                            ),
                        },
                    },
                },
            }
        },
    }
}

/// Decodes `NOCResponse`: the status under tag 0, the fabric index under tag 1,
/// text under tag 2. Other fields are ignored, containers with all that they
/// hold.
pub fn decode_noc_response(tlv: &[u8]) -> (r: Result<NocResponse, NocError>)
    ensures
        r matches Ok(v) ==> (v.fabric_index is Some <==> v.status == 0),
        match noc_response(tlv@) {
            Err(e) => r == Err::<NocResponse, NocError>(e),
            Ok((status, fabric_index, debug_text)) => {
                &&& r matches Ok(v)
                &&& v.status == status
                &&& v.fabric_index == fabric_index
                &&& match v.debug_text {
                    Some(text) => debug_text == Some(text@),
                    None => debug_text is None,
                }
            },
        },
{
    let (members, ending) = match open_structure(tlv) {
        Opened::Fault(e) => {
            return Err(NocError::ClusterCodec(e));
        },
        Opened::NotStructure => {
            return Err(NocError::MalformedResponse("NOCResponse: expected an anonymous structure"));
        },
        Opened::Members(members, ending) => (members, ending),
    };
    let ghost items = items_of(members@);
    let ghost rule = |before: Seq<Item>, item: Item| noc_response_rule(item);
    let mut status: Option<u8> = None;
    let mut fabric_index: Option<u8> = None;
    let mut debug_text: Option<String> = None;
    let mut i: usize = 0;
    while i < members.len()
        invariant
            i <= members@.len(),
            items == items_of(members@),
            rule == (|before: Seq<Item>, item: Item| noc_response_rule(item)),
            opening(decode_all(tlv@)) == Opening::Members(items, ending),
            first_fault(items.take(i as int), rule) is None,
            match status {
                Some(v) => uint_field(items.take(i as int), 0) == Some(v as u64),
                None => uint_field(items.take(i as int), 0) is None,
            },
            match fabric_index {
                Some(v) => uint_field(items.take(i as int), 1) == Some(v as u64),
                None => uint_field(items.take(i as int), 1) is None,
            },
            match debug_text {
                Some(v) => utf8_field(items.take(i as int), 2) == Some(v@),
                None => utf8_field(items.take(i as int), 2) is None,
            },
        decreases members@.len() - i,
    {
        proof {
            lemma_next_member(members@, i as int);
            if first_fault(items.take(i + 1), rule) is Some {
                lemma_first_fault_prefix(items, i + 1, rule);
            }
        }
        let element = &members[i];
        if let Some(v) = element_uint(element, 0) {
            if v > 255 {
                return Err(NocError::MalformedResponse("NOCResponse: StatusCode exceeds u8"));
            }
            status = Some(v as u8);
        } else if let Some(v) = element_uint(element, 1) {
            if v > 255 {
                return Err(NocError::MalformedResponse("NOCResponse: FabricIndex exceeds u8"));
            }
            fabric_index = Some(v as u8);
        } else if let Some(text) = element_utf8(element, 2) {
            debug_text = Some(text.clone());
        }
        i = i + 1;
    }
    proof {
        assert(items.take(i as int) =~= items);
    }
    if let Some(e) = check_ending(ending) {
        return Err(e);
    }
    match status {
        None => Err(NocError::MalformedResponse("NOCResponse: missing StatusCode field")),
        Some(status) => {
            if status == 0 && fabric_index.is_none() {
                return Err(
                    NocError::MalformedResponse("NOCResponse: success without FabricIndex field"),
                );
            }
            if status != 0 && fabric_index.is_some() {
                return Err(
                    NocError::MalformedResponse("NOCResponse: failure with FabricIndex field"),
                );
            }
            Ok(NocResponse { status, fabric_index, debug_text })
        },
    }
}

/// A signed response is read as the body and the signature that it was written
/// with.
pub proof fn law_signed_response_is_read(texts: SignedTexts, body: Seq<u8>, signature: Seq<u8>)
    requires
        body.len() <= u64::MAX,
        signature.len() == 64,
    ensures
        signed_response(
            texts,
            structure(seq![at(0, Scalar::Bytes(body)), at(1, Scalar::Bytes(signature))]),
        ) == Ok::<(Seq<u8>, Seq<u8>), NocError>((body, signature)),
{
    let nothing = Seq::<Item>::empty();
    let first = at(0, Scalar::Bytes(body));
    let second = at(1, Scalar::Bytes(signature));
    let one = nothing.push(first);
    let both = one.push(second);
    assert(both =~= seq![first, second]);
    lemma_written_structure(both);
    let rule = |before: Seq<Item>, item: Item| signed_rule(texts, before, item);
    lemma_fault_push(nothing, first, rule);
    lemma_fault_push(one, second, rule);
    lemma_field_push(nothing, first, |i: Item| bytes_at(i, 0));
    lemma_field_push(one, second, |i: Item| bytes_at(i, 0));
    lemma_field_push(nothing, first, |i: Item| bytes_at(i, 1));
    lemma_field_push(one, second, |i: Item| bytes_at(i, 1));
}

/// A certificate chain response is read as the certificate that it was written
/// with.
pub proof fn law_chain_response_is_read(certificate: Seq<u8>)
    requires
        certificate.len() <= u64::MAX,
    ensures
        chain_response(structure(seq![at(0, Scalar::Bytes(certificate))])) == Ok::<
            Seq<u8>,
            NocError,
        >(certificate),
{
    let nothing = Seq::<Item>::empty();
    let field = at(0, Scalar::Bytes(certificate));
    let one = nothing.push(field);
    assert(one =~= seq![field]);
    lemma_written_structure(one);
    lemma_fault_push(
        nothing,
        field,
        |before: Seq<Item>, item: Item| chain_response_rule(before, item),
    );
    lemma_field_push(nothing, field, |i: Item| bytes_at(i, 0));
}

/// The members of a `NOCResponse`.
pub open spec fn noc_response_items(
    status: u8,
    fabric_index: Option<u8>,
    debug_text: Option<Seq<char>>,
) -> Seq<Item> {
    seq![at(0, Scalar::Uint(status as u64))] + optional(
        1,
        match fabric_index {
            Some(index) => Some(Scalar::Uint(index as u64)),
            None => None,
        },
    ) + optional(
        2,
        match debug_text {
            Some(text) => Some(Scalar::Utf8(text)),
            None => None,
        },
    )
}

/// A `NOCResponse` is read as the status, index and text that it was written
/// with.
pub proof fn law_noc_response_is_read(
    status: u8,
    fabric_index: Option<u8>,
    debug_text: Option<Seq<char>>,
)
    requires
        fabric_index is Some <==> status == 0,
        debug_text matches Some(text) ==> encode_utf8(text).len() <= u64::MAX,
    ensures
        noc_response(structure(noc_response_items(status, fabric_index, debug_text))) == Ok::<
            NocResponseView,
            NocError,
        >((status, fabric_index, debug_text)),
{
    let rule = |before: Seq<Item>, item: Item| noc_response_rule(item);
    let nothing = Seq::<Item>::empty();
    let first = at(0, Scalar::Uint(status as u64));
    let one = nothing.push(first);
    lemma_fault_push(nothing, first, rule);
    lemma_field_push(nothing, first, |i: Item| uint_at(i, 0));
    lemma_field_push(nothing, first, |i: Item| uint_at(i, 1));
    lemma_field_push(nothing, first, |i: Item| utf8_at(i, 2));
    let two = match fabric_index {
        Some(index) => one.push(at(1, Scalar::Uint(index as u64))),
        None => one,
    };
    if let Some(index) = fabric_index {
        let second = at(1, Scalar::Uint(index as u64));
        lemma_fault_push(one, second, rule);
        lemma_field_push(one, second, |i: Item| uint_at(i, 0));
        lemma_field_push(one, second, |i: Item| uint_at(i, 1));
        lemma_field_push(one, second, |i: Item| utf8_at(i, 2));
    }
    let three = match debug_text {
        Some(text) => two.push(at(2, Scalar::Utf8(text))),
        None => two,
    };
    if let Some(text) = debug_text {
        let third = at(2, Scalar::Utf8(text));
        lemma_fault_push(two, third, rule);
        lemma_field_push(two, third, |i: Item| uint_at(i, 0));
        lemma_field_push(two, third, |i: Item| uint_at(i, 1));
        lemma_field_push(two, third, |i: Item| utf8_at(i, 2));
    }
    assert(three =~= noc_response_items(status, fabric_index, debug_text));
    lemma_written_structure(three);
}

/// What is between the start and the end of a written structure is what its
/// receiver reads.
proof fn lemma_receiver_reads(items: Seq<Item>, inner: Seq<Item>)
    requires
        items == seq![struct_start()] + inner + seq![Item::End],
        forall|i: int|
            0 <= i < inner.len() ==> crate::tlv::encodable(#[trigger] inner[i])
                && inner[i] is Scalar,
    ensures
        opening(decode_all(encode_all(items))) == Opening::Members(inner, Ending::Closed),
{
    lemma_written_structure(inner);
}

/// A device reads the nonce of an `AttestationRequest` under tag 0, and nothing
/// else.
pub proof fn law_attestation_request(nonce: Seq<u8>)
    requires
        nonce.len() <= u64::MAX,
    ensures
        opening(decode_all(encode_all(attestation_request_items(nonce)))) matches Opening::Members(
            members,
            ending,
        ) && ending == Ending::Closed && members.len() == 1 && bytes_field(members, 0) == Some(
            nonce,
        ),
{
    let inner = seq![Item::Scalar { tag: Tag::Context(0), value: Scalar::Bytes(nonce) }];
    assert(attestation_request_items(nonce) =~= seq![struct_start()] + inner + seq![Item::End]);
    lemma_receiver_reads(attestation_request_items(nonce), inner);
    reveal_with_fuel(crate::tlv::members::last_field, 2);
}

/// A device reads the type of a `CertificateChainRequest` under tag 0: 1 for its
/// own certificate, 2 for the one that issued it.
pub proof fn law_chain_request(cert_type: CertChainType)
    ensures
        opening(decode_all(encode_all(chain_request_items(cert_type)))) matches Opening::Members(
            members,
            ending,
        ) && ending == Ending::Closed && members.len() == 1 && uint_field(members, 0) == Some(
            match cert_type {
                CertChainType::Dac => 1u64,
                CertChainType::Pai => 2u64,
            },
        ),
{
    let number: u64 = match cert_type {
        CertChainType::Dac => 1u64,
        CertChainType::Pai => 2u64,
    };
    let inner = seq![Item::Scalar { tag: Tag::Context(0), value: Scalar::Uint(number) }];
    assert(chain_request_items(cert_type) =~= seq![struct_start()] + inner + seq![Item::End]);
    lemma_receiver_reads(chain_request_items(cert_type), inner);
    reveal_with_fuel(crate::tlv::members::last_field, 2);
}

/// A device reads the nonce of a `CSRRequest` under tag 0, and under tag 1 that
/// the CSR is for an update exactly if it is.
pub proof fn law_csr_request(nonce: Seq<u8>, is_for_update_noc: bool)
    requires
        nonce.len() <= u64::MAX,
    ensures
        opening(
            decode_all(encode_all(csr_request_items(nonce, is_for_update_noc))),
        ) matches Opening::Members(members, ending) && {
            &&& ending == Ending::Closed
            &&& bytes_field(members, 0) == Some(nonce)
            &&& members.contains(
                Item::Scalar { tag: Tag::Context(1), value: Scalar::Bool(true) },
            ) == is_for_update_noc
            &&& members.len() == (if is_for_update_noc {
                2int
            } else {
                1int
            })
        },
{
    let first = Item::Scalar { tag: Tag::Context(0), value: Scalar::Bytes(nonce) };
    let flag = Item::Scalar { tag: Tag::Context(1), value: Scalar::Bool(true) };
    let inner = if is_for_update_noc {
        seq![first, flag]
    } else {
        seq![first]
    };
    let items = csr_request_items(nonce, is_for_update_noc);
    assert(items =~= seq![struct_start()] + inner + seq![Item::End]);
    lemma_receiver_reads(items, inner);
    reveal_with_fuel(crate::tlv::members::last_field, 3);
    if is_for_update_noc {
        assert(inner[1] == flag);
    }
}

/// A device reads the certificate of an `AddTrustedRootCertificate` under tag 0,
/// and nothing else.
pub proof fn law_trusted_root(rcac_tlv: Seq<u8>)
    requires
        rcac_tlv.len() <= u64::MAX,
    ensures
        opening(decode_all(encode_all(trusted_root_items(rcac_tlv)))) matches Opening::Members(
            members,
            ending,
        ) && ending == Ending::Closed && members.len() == 1 && bytes_field(members, 0) == Some(
            rcac_tlv,
        ),
{
    let inner = seq![Item::Scalar { tag: Tag::Context(0), value: Scalar::Bytes(rcac_tlv) }];
    assert(trusted_root_items(rcac_tlv) =~= seq![struct_start()] + inner + seq![Item::End]);
    lemma_receiver_reads(trusted_root_items(rcac_tlv), inner);
    reveal_with_fuel(crate::tlv::members::last_field, 2);
}

/// A device reads of an `AddNOC` its certificate under tag 0, the intermediate
/// one under tag 1 if there is one, the identity protection key under tag 2, the
/// administrator under tag 3 and the vendor of the administrator under tag 4.
pub proof fn law_add_noc(
    noc_tlv: Seq<u8>,
    icac_tlv: Option<&[u8]>,
    ipk: Seq<u8>,
    case_admin_subject: u64,
    admin_vendor_id: u16,
)
    requires
        noc_tlv.len() <= u64::MAX,
        ipk.len() <= u64::MAX,
        icac_tlv matches Some(icac) ==> icac@.len() <= u64::MAX,
    ensures
        opening(
            decode_all(
                encode_all(
                    add_noc_items(noc_tlv, icac_tlv, ipk, case_admin_subject, admin_vendor_id),
                ),
            ),
        ) matches Opening::Members(members, ending) && {
            &&& ending == Ending::Closed
            &&& bytes_field(members, 0) == Some(noc_tlv)
            &&& bytes_field(members, 1) == (match icac_tlv {
                Some(icac) => Some(icac@),
                None => None,
            })
            &&& bytes_field(members, 2) == Some(ipk)
            &&& uint_field(members, 3) == Some(case_admin_subject)
            &&& uint_field(members, 4) == Some(admin_vendor_id as u64)
            &&& members.len() == (if icac_tlv is Some {
                5int
            } else {
                4int
            })
        },
{
    let items = add_noc_items(noc_tlv, icac_tlv, ipk, case_admin_subject, admin_vendor_id);
    let first = Item::Scalar { tag: Tag::Context(0), value: Scalar::Bytes(noc_tlv) };
    let third = Item::Scalar { tag: Tag::Context(2), value: Scalar::Bytes(ipk) };
    let fourth = Item::Scalar { tag: Tag::Context(3), value: Scalar::Uint(case_admin_subject) };
    let fifth = Item::Scalar { tag: Tag::Context(4), value: Scalar::Uint(admin_vendor_id as u64) };
    let inner = match icac_tlv {
        Some(icac) => seq![
            first,
            Item::Scalar { tag: Tag::Context(1), value: Scalar::Bytes(icac@) },
            third,
            fourth,
            fifth,
        ],
        None => seq![first, third, fourth, fifth],
    };
    assert(items =~= seq![struct_start()] + inner + seq![Item::End]);
    lemma_receiver_reads(items, inner);
    reveal_with_fuel(crate::tlv::members::last_field, 6);
}

/// A device reads of an `UpdateNOC` its certificate under tag 0 and the
/// intermediate one under tag 1 if there is one.
pub proof fn law_update_noc(noc_tlv: Seq<u8>, icac_tlv: Option<&[u8]>)
    requires
        noc_tlv.len() <= u64::MAX,
        icac_tlv matches Some(icac) ==> icac@.len() <= u64::MAX,
    ensures
        opening(
            decode_all(encode_all(update_noc_items(noc_tlv, icac_tlv))),
        ) matches Opening::Members(members, ending) && {
            &&& ending == Ending::Closed
            &&& bytes_field(members, 0) == Some(noc_tlv)
            &&& bytes_field(members, 1) == (match icac_tlv {
                Some(icac) => Some(icac@),
                None => None,
            })
            &&& members.len() == (if icac_tlv is Some {
                2int
            } else {
                1int
            })
        },
{
    let items = update_noc_items(noc_tlv, icac_tlv);
    let first = Item::Scalar { tag: Tag::Context(0), value: Scalar::Bytes(noc_tlv) };
    let inner = match icac_tlv {
        Some(icac) => seq![
            first,
            Item::Scalar { tag: Tag::Context(1), value: Scalar::Bytes(icac@) },
        ],
        None => seq![first],
    };
    assert(items =~= seq![struct_start()] + inner + seq![Item::End]);
    lemma_receiver_reads(items, inner);
    reveal_with_fuel(crate::tlv::members::last_field, 3);
}

/// A signed response that is accepted is a closed structure that holds its body
/// under tag 0 and under tag 1 a signature of 64 bytes.
pub proof fn law_signed_response_fields(texts: SignedTexts, tlv: Seq<u8>)
    ensures
        signed_response(texts, tlv) matches Ok((body, signature)) ==> (opening(
            decode_all(tlv),
        ) matches Opening::Members(members, ending) && ending == Ending::Closed && bytes_field(
            members,
            0,
        ) == Some(body) && bytes_field(members, 1) == Some(signature) && signature.len() == 64),
{
    if let Opening::Members(members, _) = opening(decode_all(tlv)) {
        if signed_response(texts, tlv) is Ok {
            lemma_signature_length(texts, members);
        }
    }
}

/// Without an objection a signature has 64 bytes.
proof fn lemma_signature_length(texts: SignedTexts, members: Seq<Item>)
    requires
        first_fault(
            members,
            |before: Seq<Item>, item: Item| signed_rule(texts, before, item),
        ) is None,
    ensures
        bytes_field(members, 1) matches Some(signature) ==> signature.len() == 64,
    decreases members.len(),
{
    if members.len() > 0 {
        lemma_signature_length(texts, members.drop_last());
    }
}

/// A certificate chain response that is accepted holds the certificate under
/// tag 0.
pub proof fn law_chain_response_fields(tlv: Seq<u8>)
    ensures
        chain_response(tlv) matches Ok(certificate) ==> (opening(
            decode_all(tlv),
        ) matches Opening::Members(members, ending) && ending == Ending::Closed && bytes_field(
            members,
            0,
        ) == Some(certificate)),
{
}

/// A `NOCResponse` that is accepted holds its status under tag 0, the index of
/// the fabric under tag 1 and its text under tag 2; there is an index exactly if
/// the status is 0.
pub proof fn law_noc_response_fields(tlv: Seq<u8>)
    ensures
        noc_response(tlv) matches Ok((status, fabric_index, debug_text)) ==> {
            &&& fabric_index is Some <==> status == 0
            &&& opening(decode_all(tlv)) matches Opening::Members(members, ending)
            &&& ending == Ending::Closed
            &&& uint_field(members, 0) == Some(status as u64)
            &&& uint_field(members, 1) == (match fabric_index {
                Some(index) => Some(index as u64),
                None => None,
            })
            &&& utf8_field(members, 2) == debug_text
        },
{
    if let Opening::Members(members, _) = opening(decode_all(tlv)) {
        if noc_response(tlv) is Ok {
            lemma_noc_response_bytes(members);
        }
    }
}

/// Without an objection status and index fit in a byte.
proof fn lemma_noc_response_bytes(members: Seq<Item>)
    requires
        first_fault(members, |before: Seq<Item>, item: Item| noc_response_rule(item)) is None,
    ensures
        uint_field(members, 0) matches Some(v) ==> v <= 0xFF,
        uint_field(members, 1) matches Some(v) ==> v <= 0xFF,
    decreases members.len(),
{
    if members.len() > 0 {
        lemma_noc_response_bytes(members.drop_last());
    }
}

/// A refused response is told apart from an accepted one: bytes that are no TLV,
/// that hold no anonymous structure, or whose structure does not end are refused
/// by every decoder.
pub proof fn law_broken_responses_are_refused(texts: SignedTexts, tlv: Seq<u8>)
    requires
        !(opening(decode_all(tlv)) matches Opening::Members(_, Ending::Closed)),
    ensures
        signed_response(texts, tlv) is Err,
        chain_response(tlv) is Err,
        noc_response(tlv) is Err,
{
}

/// What a member of a signed response may not be: a second body under tag 0, a
/// second signature under tag 1, or a signature of other than 64 bytes. Everything
/// else is let pass.
pub proof fn law_signed_members(texts: SignedTexts, before: Seq<Item>, item: Item)
    ensures
        signed_rule(texts, before, item) is Some <==> {
            ||| bytes_at(item, 0) is Some && bytes_field(before, 0) is Some
            ||| bytes_at(item, 1) is Some && bytes_field(before, 1) is Some
            ||| bytes_at(item, 1) is Some && bytes_at(item, 1)->Some_0.len() != 64
        },
{
}

/// A second certificate under tag 0 is refused, and nothing else is.
pub proof fn law_chain_members(before: Seq<Item>, item: Item)
    ensures
        chain_response_rule(before, item) is Some <==> bytes_at(item, 0) is Some && bytes_field(
            before,
            0,
        ) is Some,
{
}

/// A status or an index above 255 is refused, and nothing else is.
pub proof fn law_noc_response_members(item: Item)
    ensures
        noc_response_rule(item) is Some <==> (uint_at(item, 0) matches Some(v) && v > 255) || (
        uint_at(item, 1) matches Some(v) && v > 255),
{
}

/// Responses whose members pass and which hold what is needed are accepted.
pub proof fn law_whole_responses_are_accepted(
    texts: SignedTexts,
    tlv: Seq<u8>,
    members: Seq<Item>,
)
    requires
        opening(decode_all(tlv)) == Opening::Members(members, Ending::Closed),
    ensures
        first_fault(
            members,
            |before: Seq<Item>, item: Item| signed_rule(texts, before, item),
        ) is None && bytes_field(members, 0) is Some && bytes_field(members, 1) is Some
            ==> signed_response(texts, tlv) is Ok,
        first_fault(
            members,
            |before: Seq<Item>, item: Item| chain_response_rule(before, item),
        ) is None && bytes_field(members, 0) is Some ==> chain_response(tlv) is Ok,
        first_fault(members, |before: Seq<Item>, item: Item| noc_response_rule(item)) is None && (
        uint_field(members, 0) matches Some(status) && (status == 0 <==> uint_field(
            members,
            1,
        ) is Some)) ==> noc_response(tlv) is Ok,
{
}

} // verus!
