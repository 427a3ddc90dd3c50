use matter_commissioning::crypto::PublicKey;
use matter_commissioning::noc::csr::{conclude_csr_response, csr_key, ct_eq, CsrParts};
use matter_commissioning::noc::fabric::{key_identifier, rcac_params, rcac_params_with, RootCertificate};
use matter_commissioning::noc::issuer::{mask_serial, noc_params};
use matter_commissioning::noc::{CertFault, CsrFault, NocsrFault};
use matter_commissioning::tlv::{ContainerKind, Element, Tag, TlvError, TlvReader, TlvWriter, Value};
use matter_commissioning::{
    decode_attestation_response, decode_certificate_chain_response, decode_csr_response,
    decode_noc_response, encode_add_noc, encode_add_trusted_root, encode_attestation_request,
    encode_certificate_chain_request, encode_csr_request, encode_update_noc, issue_icac, issue_noc,
    parse_and_verify_csr, parse_nocsr, verify_csr_response, CertChainType, FabricRecord, NocError,
    NocRng, SystemNocRng, VerifiedCsr,
};
use p256::ecdsa::signature::Signer;
use p256::ecdsa::{Signature, SigningKey};

fn write_csr_response(nocsr: &[u8], att_sig: &[u8; 64]) -> Vec<u8> {
    let mut w = TlvWriter::new();
    w.start_structure(Tag::Anonymous);
    w.put_bytes(Tag::Context(0), nocsr);
    w.put_bytes(Tag::Context(1), att_sig);
    w.end_container();
    w.finish()
}

#[test]
fn decode_csr_response_roundtrips() {
    let nocsr = b"opaque nocsr bytes".to_vec();
    let sig = [0xAB; 64];
    let tlv = write_csr_response(&nocsr, &sig);
    let decoded = decode_csr_response(&tlv).unwrap();
    assert_eq!(decoded.nocsr_elements, nocsr);
    assert_eq!(decoded.attestation_signature, sig);
}

#[test]
fn decode_csr_response_rejects_missing_signature() {
    let mut w = TlvWriter::new();
    w.start_structure(Tag::Anonymous);
    w.put_bytes(Tag::Context(0), b"some nocsr");
    w.end_container();
    assert!(matches!(
        decode_csr_response(&w.finish()),
        Err(NocError::MalformedResponse(_))
    ));
}

#[test]
fn decode_csr_response_rejects_wrong_sig_length() {
    let mut w = TlvWriter::new();
    w.start_structure(Tag::Anonymous);
    w.put_bytes(Tag::Context(0), b"some nocsr");
    w.put_bytes(Tag::Context(1), &[0u8; 32]);
    w.end_container();
    assert!(matches!(
        decode_csr_response(&w.finish()),
        Err(NocError::MalformedResponse(_))
    ));
}

#[test]
fn decode_csr_response_rejects_non_struct_outer() {
    let mut w = TlvWriter::new();
    w.put_uint(Tag::Anonymous, 7);
    match decode_csr_response(&w.finish()) {
        Err(NocError::MalformedResponse(_)) => {}
        other => panic!("expected MalformedResponse, got {other:?}"),
    }
}

#[test]
fn decode_noc_response_rejects_non_struct_outer() {
    let mut w = TlvWriter::new();
    w.put_uint(Tag::Anonymous, 7);
    match decode_noc_response(&w.finish()) {
        Err(NocError::MalformedResponse(_)) => {}
        other => panic!("expected MalformedResponse, got {other:?}"),
    }
}

#[test]
fn broken_tlv_is_a_codec_error() {
    let unknown = [0x15, 0x3F];
    for broken in [&[0x15][..], &[0x15, 0x30, 0x00, 0x05, 0x01][..], &unknown[..]] {
        assert!(matches!(decode_csr_response(broken), Err(NocError::ClusterCodec(_)) | Err(NocError::MalformedResponse(_))));
    }
    assert_eq!(
        decode_csr_response(&unknown).unwrap_err(),
        NocError::ClusterCodec(TlvError::InvalidControl(0x3F))
    );
    assert_eq!(
        decode_noc_response(&unknown).unwrap_err(),
        NocError::ClusterCodec(TlvError::InvalidControl(0x3F))
    );
    assert!(matches!(
        decode_attestation_response(&unknown),
        Err(NocError::ClusterCodec(_))
    ));
    assert!(matches!(
        decode_certificate_chain_response(&unknown),
        Err(NocError::ClusterCodec(_))
    ));
}

fn write_noc_response(status: u8, fabric_index: Option<u8>, debug_text: Option<&str>) -> Vec<u8> {
    let mut w = TlvWriter::new();
    w.start_structure(Tag::Anonymous);
    w.put_uint(Tag::Context(0), u64::from(status));
    if let Some(fi) = fabric_index {
        w.put_uint(Tag::Context(1), u64::from(fi));
    }
    if let Some(text) = debug_text {
        w.put_utf8(Tag::Context(2), text);
    }
    w.end_container();
    w.finish()
}

#[test]
fn decode_noc_response_ok_status() {
    let tlv = write_noc_response(0, Some(3), None);
    let r = decode_noc_response(&tlv).unwrap();
    assert_eq!(r.status, 0);
    assert_eq!(r.fabric_index, Some(3));
    assert_eq!(r.debug_text, None);
}

#[test]
fn decode_noc_response_with_debug_text() {
    let tlv = write_noc_response(0, Some(1), Some("welcome to the fabric"));
    let r = decode_noc_response(&tlv).unwrap();
    assert_eq!(r.debug_text.as_deref(), Some("welcome to the fabric"));
}

#[test]
fn decode_noc_response_failure_status_no_index() {
    let tlv = write_noc_response(9, None, Some("invalid NOC"));
    let r = decode_noc_response(&tlv).unwrap();
    assert_eq!(r.status, 9);
    assert_eq!(r.fabric_index, None);
    assert_eq!(r.debug_text.as_deref(), Some("invalid NOC"));
}

#[test]
fn decode_noc_response_rejects_missing_status() {
    let mut w = TlvWriter::new();
    w.start_structure(Tag::Anonymous);
    w.end_container();
    assert!(matches!(
        decode_noc_response(&w.finish()),
        Err(NocError::MalformedResponse(_))
    ));
}

#[test]
fn decode_noc_response_rejects_wide_numbers() {
    let mut w = TlvWriter::new();
    w.start_structure(Tag::Anonymous);
    w.put_uint(Tag::Context(0), 256);
    w.end_container();
    assert_eq!(
        decode_noc_response(&w.finish()).unwrap_err(),
        NocError::MalformedResponse("NOCResponse: StatusCode exceeds u8")
    );
    let mut w = TlvWriter::new();
    w.start_structure(Tag::Anonymous);
    w.put_uint(Tag::Context(0), 0);
    w.put_uint(Tag::Context(1), 300);
    w.end_container();
    assert_eq!(
        decode_noc_response(&w.finish()).unwrap_err(),
        NocError::MalformedResponse("NOCResponse: FabricIndex exceeds u8")
    );
}

#[test]
fn encode_csr_request_then_parse() {
    let nonce = [0x11u8; 32];
    let bytes = encode_csr_request(&nonce, false);
    let mut r = TlvReader::new(&bytes);
    assert!(matches!(
        r.next().unwrap(),
        Some(Element::ContainerStart { tag: Tag::Anonymous, kind: ContainerKind::Structure })
    ));
    match r.next().unwrap() {
        Some(Element::Scalar { tag: Tag::Context(0), value: Value::Bytes(b) }) => {
            assert_eq!(b, nonce.to_vec())
        }
        other => panic!("unexpected: {other:?}"),
    }
    assert!(matches!(r.next().unwrap(), Some(Element::ContainerEnd)));
}

#[test]
fn encode_csr_request_with_update_flag_emits_field_1() {
    let nonce = [0x11u8; 32];
    let bytes = encode_csr_request(&nonce, true);
    let mut r = TlvReader::new(&bytes);
    let _ = r.next();
    let _ = r.next();
    match r.next().unwrap() {
        Some(Element::Scalar { tag: Tag::Context(1), value: Value::Bool(true) }) => {}
        other => panic!("unexpected: {other:?}"),
    }
}

#[test]
fn attestation_request_emits_anonymous_struct_with_32_byte_nonce() {
    let nonce = [0xAB_u8; 32];
    let bytes = encode_attestation_request(&nonce);
    assert_eq!(bytes[0], 0x15);
    assert_eq!(*bytes.last().expect("non-empty"), 0x18);
    assert_eq!(bytes[1], 0x30);
    assert_eq!(bytes[2], 0x00);
    assert_eq!(bytes[3], 0x20);
    assert_eq!(&bytes[4..4 + 32], &nonce);
}

#[test]
fn attestation_response_round_trips() {
    let elements = vec![0xDE, 0xAD, 0xBE, 0xEF];
    let sig = [0x42_u8; 64];
    let mut tlv = vec![0x15];
    tlv.extend_from_slice(&[0x30, 0x00, 0x04]);
    tlv.extend_from_slice(&elements);
    tlv.extend_from_slice(&[0x30, 0x01, 0x40]);
    tlv.extend_from_slice(&sig);
    tlv.push(0x18);
    let resp = decode_attestation_response(&tlv).expect("decode happy path");
    assert_eq!(resp.attestation_elements, elements);
    assert_eq!(resp.signature, sig);
}

#[test]
fn cert_chain_request_dac_matches_spec_bytes() {
    let bytes = encode_certificate_chain_request(CertChainType::Dac);
    assert_eq!(bytes, vec![0x15, 0x24, 0x00, 0x01, 0x18]);
}

#[test]
fn cert_chain_request_pai_matches_spec_bytes() {
    let bytes = encode_certificate_chain_request(CertChainType::Pai);
    assert_eq!(bytes, vec![0x15, 0x24, 0x00, 0x02, 0x18]);
}

#[test]
fn cert_chain_response_round_trips_der_payload() {
    let tlv = vec![0x15, 0x30, 0x00, 0x03, 0xAA, 0xBB, 0xCC, 0x18];
    let resp = decode_certificate_chain_response(&tlv).expect("decode happy path");
    assert_eq!(resp.certificate, vec![0xAA, 0xBB, 0xCC]);
}

#[test]
fn encode_add_noc_emits_required_fields() {
    let noc = b"noc-bytes".to_vec();
    let ipk = [0x77u8; 16];
    let bytes = encode_add_noc(&noc, None, &ipk, 0xDEAD_BEEF, 0xFFF1);
    let mut r = TlvReader::new(&bytes);
    assert!(matches!(
        r.next().unwrap(),
        Some(Element::ContainerStart { tag: Tag::Anonymous, kind: ContainerKind::Structure })
    ));
    match r.next().unwrap() {
        Some(Element::Scalar { tag: Tag::Context(0), value: Value::Bytes(b) }) => {
            assert_eq!(b, noc)
        }
        other => panic!("unexpected: {other:?}"),
    }
    match r.next().unwrap() {
        Some(Element::Scalar { tag: Tag::Context(2), value: Value::Bytes(b) }) => {
            assert_eq!(b, ipk.to_vec())
        }
        other => panic!("unexpected: {other:?}"),
    }
}

#[test]
fn credential_commands_have_exact_bytes() {
    assert_eq!(
        encode_add_noc(&[1], Some(&[2]), &[0x77; 16], 0x1234, 0xFFF1),
        [
            &[0x15, 0x30, 0x00, 0x01, 0x01, 0x30, 0x01, 0x01, 0x02, 0x30, 0x02, 0x10][..],
            &[0x77; 16][..],
            &[0x25, 0x03, 0x34, 0x12, 0x25, 0x04, 0xF1, 0xFF, 0x18][..],
        ]
        .concat()
    );
    assert_eq!(encode_update_noc(&[1], None), vec![0x15, 0x30, 0x00, 0x01, 0x01, 0x18]);
    assert_eq!(
        encode_update_noc(&[1], Some(&[2])),
        vec![0x15, 0x30, 0x00, 0x01, 0x01, 0x30, 0x01, 0x01, 0x02, 0x18]
    );
    assert_eq!(
        encode_add_trusted_root(&[9, 8]),
        vec![0x15, 0x30, 0x00, 0x02, 0x09, 0x08, 0x18]
    );
}

/// Composes NOCSR elements from raw fields.
fn write_nocsr(
    csr_der: &[u8],
    nonce: &[u8; 32],
    vr1: Option<&[u8]>,
    vr2: Option<&[u8]>,
    vr3: Option<&[u8]>,
) -> Vec<u8> {
    let mut w = TlvWriter::new();
    w.start_structure(Tag::Anonymous);
    w.put_bytes(Tag::Context(1), csr_der);
    w.put_bytes(Tag::Context(2), nonce);
    if let Some(b) = vr1 {
        w.put_bytes(Tag::Context(3), b);
    }
    if let Some(b) = vr2 {
        w.put_bytes(Tag::Context(4), b);
    }
    if let Some(b) = vr3 {
        w.put_bytes(Tag::Context(5), b);
    }
    w.end_container();
    w.finish()
}

#[test]
fn parse_nocsr_roundtrips_minimal() {
    let csr = b"synthetic-csr-der-bytes".to_vec();
    let nonce = [0x42u8; 32];
    let tlv = write_nocsr(&csr, &nonce, None, None, None);

    let parsed = parse_nocsr(&tlv).unwrap();
    assert_eq!(parsed.csr_der, csr);
    assert_eq!(parsed.csr_nonce, nonce);
    assert_eq!(parsed.vendor_reserved_1, None);
    assert_eq!(parsed.vendor_reserved_2, None);
    assert_eq!(parsed.vendor_reserved_3, None);
}

#[test]
fn parse_nocsr_roundtrips_with_vendor_reserved() {
    let csr = b"more-csr-bytes".to_vec();
    let nonce = [0x99u8; 32];
    let tlv = write_nocsr(&csr, &nonce, Some(b"vr1"), None, Some(b"vr3"));

    let parsed = parse_nocsr(&tlv).unwrap();
    assert_eq!(parsed.csr_der, csr);
    assert_eq!(parsed.csr_nonce, nonce);
    assert_eq!(parsed.vendor_reserved_1.as_deref(), Some(&b"vr1"[..]));
    assert_eq!(parsed.vendor_reserved_2, None);
    assert_eq!(parsed.vendor_reserved_3.as_deref(), Some(&b"vr3"[..]));
}

#[test]
fn parse_nocsr_rejects_missing_csr_field() {
    let mut w = TlvWriter::new();
    w.start_structure(Tag::Anonymous);
    w.put_bytes(Tag::Context(2), &[0u8; 32]);
    w.end_container();
    assert!(matches!(parse_nocsr(&w.finish()), Err(NocError::NocsrParse(_))));
}

#[test]
fn parse_nocsr_rejects_missing_nonce_field() {
    let mut w = TlvWriter::new();
    w.start_structure(Tag::Anonymous);
    w.put_bytes(Tag::Context(1), b"some-csr");
    w.end_container();
    assert!(matches!(parse_nocsr(&w.finish()), Err(NocError::NocsrParse(_))));
}

#[test]
fn parse_nocsr_rejects_wrong_nonce_length() {
    let mut w = TlvWriter::new();
    w.start_structure(Tag::Anonymous);
    w.put_bytes(Tag::Context(1), b"some-csr");
    w.put_bytes(Tag::Context(2), &[0u8; 16]);
    w.end_container();
    assert_eq!(
        parse_nocsr(&w.finish()).unwrap_err(),
        NocError::NocsrParse(NocsrFault::NonceLength)
    );
}

#[test]
fn parse_nocsr_rejects_truncated_input() {
    let csr = b"hello".to_vec();
    let nonce = [0u8; 32];
    let mut tlv = write_nocsr(&csr, &nonce, None, None, None);
    tlv.pop();
    assert!(matches!(parse_nocsr(&tlv), Err(NocError::NocsrParse(_))));
}

#[test]
fn parse_nocsr_rejects_strange_members() {
    let mut w = TlvWriter::new();
    w.start_structure(Tag::Anonymous);
    w.put_bytes(Tag::Context(9), b"?");
    w.end_container();
    assert_eq!(
        parse_nocsr(&w.finish()).unwrap_err(),
        NocError::NocsrParse(NocsrFault::UnknownTag(9))
    );
    let mut w = TlvWriter::new();
    w.start_structure(Tag::Anonymous);
    w.put_uint(Tag::Context(1), 5);
    w.end_container();
    assert_eq!(
        parse_nocsr(&w.finish()).unwrap_err(),
        NocError::NocsrParse(NocsrFault::UnexpectedElement)
    );
    let mut w = TlvWriter::new();
    w.start_structure(Tag::Anonymous);
    w.put_bytes(Tag::Context(1), b"a");
    w.put_bytes(Tag::Context(1), b"b");
    w.end_container();
    assert!(matches!(
        parse_nocsr(&w.finish()).unwrap_err(),
        NocError::NocsrParse(NocsrFault::Duplicate(_))
    ));
    assert_eq!(
        parse_nocsr(&[0x16, 0x18]).unwrap_err(),
        NocError::NocsrParse(NocsrFault::NotStructure)
    );
}

fn key_of(seed: u8) -> (SigningKey, [u8; 65]) {
    let mut scalar = [0u8; 32];
    scalar[0] = seed;
    let signing_key = SigningKey::from_slice(&scalar).unwrap();
    let encoded = signing_key.verifying_key().to_encoded_point(false);
    let mut public_key = [0u8; 65];
    public_key.copy_from_slice(encoded.as_bytes());
    (signing_key, public_key)
}

/// Mints a PKCS#10 request and returns it with its public key.
fn mint_pkcs10_csr(seed: u8) -> (Vec<u8>, [u8; 65]) {
    let (signing_key, public_key) = key_of(seed);
    let tbs_csr_info = build_pkcs10_csr_info(&public_key);
    let signature: Signature = signing_key.sign(&tbs_csr_info);
    let sig_der = signature.to_der().as_bytes().to_vec();
    let csr_der = wrap_pkcs10_csr(&tbs_csr_info, &sig_der);
    (csr_der, public_key)
}

/// The request info for a P-256 public key with an empty subject and an empty
/// attribute set.
fn build_pkcs10_csr_info(public_key_sec1: &[u8; 65]) -> Vec<u8> {
    let alg_id = encode_der_sequence(&[
        &encode_der_oid(&[1, 2, 840, 10045, 2, 1]),
        &encode_der_oid(&[1, 2, 840, 10045, 3, 1, 7]),
    ]);
    let pk_bit_string = encode_der_bit_string(public_key_sec1);
    let subject_pk_info = encode_der_sequence(&[&alg_id, &pk_bit_string]);
    let subject = encode_der_sequence(&[]);
    let version = encode_der_tlv(0x02, &[0x00]);
    let attributes = encode_der_tlv(0xA0, &[]);
    encode_der_sequence(&[&version, &subject, &subject_pk_info, &attributes])
}

fn wrap_pkcs10_csr(tbs: &[u8], signature_der: &[u8]) -> Vec<u8> {
    let alg_id = encode_der_sequence(&[&encode_der_oid(&[1, 2, 840, 10045, 4, 3, 2])]);
    let sig_bit_string = encode_der_bit_string(signature_der);
    encode_der_sequence(&[tbs, &alg_id, &sig_bit_string])
}

fn encode_der_length(body_len: usize) -> Vec<u8> {
    if body_len < 0x80 {
        vec![body_len as u8]
    } else if body_len <= 0xff {
        vec![0x81, body_len as u8]
    } else if body_len <= 0xffff {
        vec![0x82, (body_len >> 8) as u8, body_len as u8]
    } else {
        panic!("length too big");
    }
}

fn encode_der_tlv(tag: u8, body: &[u8]) -> Vec<u8> {
    let mut out = vec![tag];
    out.extend_from_slice(&encode_der_length(body.len()));
    out.extend_from_slice(body);
    out
}

fn encode_der_sequence(parts: &[&[u8]]) -> Vec<u8> {
    encode_der_tlv(0x30, &parts.concat())
}

fn encode_der_bit_string(bytes: &[u8]) -> Vec<u8> {
    let mut body = vec![0x00];
    body.extend_from_slice(bytes);
    encode_der_tlv(0x03, &body)
}

fn encode_der_oid(arcs: &[u32]) -> Vec<u8> {
    let mut body = vec![(arcs[0] * 40 + arcs[1]) as u8];
    for arc in &arcs[2..] {
        let mut a = *arc;
        let mut digits = vec![(a & 0x7f) as u8];
        a >>= 7;
        while a > 0 {
            digits.push(((a & 0x7f) | 0x80) as u8);
            a >>= 7;
        }
        digits.reverse();
        body.extend_from_slice(&digits);
    }
    encode_der_tlv(0x06, &body)
}

#[test]
fn parse_and_verify_csr_accepts_valid_synthetic() {
    let (csr_der, public_key) = mint_pkcs10_csr(0x11);
    let parsed = parse_and_verify_csr(&csr_der).unwrap();
    assert_eq!(parsed.public_key.as_bytes(), &public_key);
}

#[test]
fn parse_and_verify_csr_rejects_flipped_signature_bit() {
    let (mut csr_der, _) = mint_pkcs10_csr(0x12);
    let last = csr_der.len() - 1;
    csr_der[last] ^= 0x01;
    assert!(matches!(
        parse_and_verify_csr(&csr_der),
        Err(NocError::BadCsrSelfSignature)
    ));
}

#[test]
fn parse_and_verify_csr_rejects_garbage_input() {
    assert!(matches!(
        parse_and_verify_csr(&[0x30, 0x00]),
        Err(NocError::CsrParse(_))
    ));
}

#[test]
fn parse_and_verify_csr_rejects_trailing_bytes() {
    let (mut csr_der, _) = mint_pkcs10_csr(0x13);
    csr_der.push(0);
    assert_eq!(
        parse_and_verify_csr(&csr_der).unwrap_err(),
        NocError::CsrParse(CsrFault::TrailingBytes)
    );
}

#[test]
fn csr_key_wants_an_uncompressed_point() {
    let (_, public_key) = key_of(0x14);
    let mut parts = CsrParts {
        rest: vec![],
        public_key: public_key.to_vec(),
        signed: vec![1],
        signature: vec![2],
    };
    assert_eq!(csr_key(&parts).unwrap().as_bytes(), &public_key);
    parts.public_key[0] = 2;
    assert_eq!(csr_key(&parts).unwrap_err(), NocError::InvalidCsrPublicKey);
    parts.public_key.truncate(33);
    assert_eq!(csr_key(&parts).unwrap_err(), NocError::InvalidCsrPublicKey);
}

#[test]
fn nonces_are_compared_whole() {
    let a = [7u8; 32];
    assert!(ct_eq(&a, &a));
    for i in 0..32usize {
        let mut b = a;
        b[i] ^= 0x10;
        assert!(!ct_eq(&a, &b));
    }
}

fn build_signed_csr_response(
    dac_seed: u8,
    csr_seed: u8,
    nonce: &[u8; 32],
    challenge: &[u8; 16],
) -> (Vec<u8>, [u8; 64], [u8; 65]) {
    let (csr_der, _) = mint_pkcs10_csr(csr_seed);
    let elements_tlv = write_nocsr(&csr_der, nonce, None, None, None);
    let (dac_key, dac_pub) = key_of(dac_seed);
    let mut tbs = Vec::with_capacity(elements_tlv.len() + 16);
    tbs.extend_from_slice(&elements_tlv);
    tbs.extend_from_slice(challenge);
    let sig: Signature = dac_key.sign(&tbs);
    let mut att_sig = [0u8; 64];
    att_sig.copy_from_slice(&sig.to_bytes());
    (elements_tlv, att_sig, dac_pub)
}

#[test]
fn verify_csr_response_happy_path() {
    let nonce = [0x33u8; 32];
    let challenge = [0x77u8; 16];
    let (elements, sig, dac_pub) = build_signed_csr_response(0x21, 0x22, &nonce, &challenge);
    let verified = verify_csr_response(&elements, &sig, &nonce, &challenge, &dac_pub).unwrap();
    assert_ne!(verified.public_key.as_bytes(), &dac_pub);
    assert_eq!(verified.public_key.as_bytes(), &key_of(0x22).1);
}

#[test]
fn verify_csr_response_rejects_nonce_mismatch() {
    let nonce_sent = [0x33u8; 32];
    let nonce_echoed = [0x44u8; 32];
    let challenge = [0x77u8; 16];
    let (elements, sig, dac_pub) = build_signed_csr_response(0x23, 0x24, &nonce_echoed, &challenge);
    let err = verify_csr_response(&elements, &sig, &nonce_sent, &challenge, &dac_pub).unwrap_err();
    assert!(matches!(err, NocError::NonceMismatch), "got: {err:?}");
}

#[test]
fn verify_csr_response_rejects_bad_attestation_signature() {
    let nonce = [0x33u8; 32];
    let challenge = [0x77u8; 16];
    let (elements, mut sig, dac_pub) = build_signed_csr_response(0x25, 0x26, &nonce, &challenge);
    sig[0] ^= 0x80;
    let err = verify_csr_response(&elements, &sig, &nonce, &challenge, &dac_pub).unwrap_err();
    assert!(matches!(err, NocError::BadCsrAttestationSignature), "got: {err:?}");
}

#[test]
fn verify_csr_response_rejects_wrong_challenge() {
    let nonce = [0x33u8; 32];
    let challenge = [0x77u8; 16];
    let (elements, sig, dac_pub) = build_signed_csr_response(0x29, 0x2A, &nonce, &challenge);
    let wrong_challenge = [0u8; 16];
    let err = verify_csr_response(&elements, &sig, &nonce, &wrong_challenge, &dac_pub).unwrap_err();
    assert!(matches!(err, NocError::BadCsrAttestationSignature), "got: {err:?}");
}

#[test]
fn system_rng_fills_distinct_bytes() {
    let mut a = [0u8; 32];
    let mut b = [0u8; 32];
    SystemNocRng.fill(&mut a).unwrap();
    SystemNocRng.fill(&mut b).unwrap();
    assert_ne!(a, b, "two random draws collided");
    assert_ne!(a, [0u8; 32], "only zeros were drawn");
}

/// Fills with ones, so that a serial number would start with its highest bit.
#[derive(Debug)]
struct AllOnesRng;

impl NocRng for AllOnesRng {
    fn fill(&self, dest: &mut [u8]) -> Result<(), NocError> {
        dest.fill(0xFF);
        Ok(())
    }
}

/// Fills with the numbers from 0 up.
#[derive(Debug)]
struct CountingRng;

impl NocRng for CountingRng {
    fn fill(&self, dest: &mut [u8]) -> Result<(), NocError> {
        for (i, b) in dest.iter_mut().enumerate() {
            *b = (i & 0xff) as u8;
        }
        Ok(())
    }
}

/// Fails.
#[derive(Debug)]
struct DryRng;

impl NocRng for DryRng {
    fn fill(&self, _dest: &mut [u8]) -> Result<(), NocError> {
        Err(NocError::Rng)
    }
}

/// 14 November 2023, in seconds since 2000.
const NOT_BEFORE: u32 = 753_315_200;
/// No expiry.
const NOT_AFTER: u32 = 0;

fn public_key(seed: u8) -> PublicKey {
    PublicKey::new(key_of(seed).1).unwrap()
}

fn sample_fabric() -> FabricRecord {
    let root = rcac_params(&public_key(0x31), NOT_BEFORE, NOT_AFTER, 7, &SystemNocRng).unwrap();
    FabricRecord::new_root_only(0x0000_0000_0000_0001, &root, &SystemNocRng).unwrap()
}

#[test]
fn rcac_serial_top_bit_is_clear() {
    let root = rcac_params(&public_key(0x31), NOT_BEFORE, NOT_AFTER, 42, &AllOnesRng).unwrap();
    let serial = root.serial;
    assert_eq!(serial[0] & 0x80, 0, "generated RCAC serial must have the top bit clear");
    assert_eq!(serial.len(), 19);
    assert_eq!(serial[0], 0x7F);
    assert_eq!(serial[1..], [0xFF; 18]);
}

#[test]
fn rcac_carries_mandatory_authority_key_identifier() {
    let root = rcac_params(&public_key(0x31), NOT_BEFORE, NOT_AFTER, 42, &SystemNocRng).unwrap();
    assert_eq!(root.authority_key_identifier.len(), 20);
    assert_eq!(
        root.authority_key_identifier, root.subject_key_identifier,
        "self-signed root: AKI must equal SKI"
    );
    assert!(root.is_ca);
    assert_eq!(root.path_len_constraint, Some(1));
    assert_eq!(root.key_usage, 0x60);
    assert_eq!(root.rcac_id, 42);
}

#[test]
fn new_root_only_draws_an_identity_protection_key() {
    let root = rcac_params(&public_key(0x31), NOT_BEFORE, NOT_AFTER, 42, &SystemNocRng).unwrap();
    let fabric =
        FabricRecord::new_root_only(0xFEDC_BA98_7654_3210, &root, &SystemNocRng).unwrap();
    assert_eq!(fabric.fabric_id, 0xFEDC_BA98_7654_3210);
    assert_eq!(fabric.root_public_key.as_bytes(), &key_of(0x31).1);
    assert_eq!(fabric.root_cert.rcac_id, 42);
    assert_ne!(fabric.identity_protection_key, [0u8; 16]);
    let counted = FabricRecord::new_root_only(1, &root, &CountingRng).unwrap();
    assert_eq!(
        counted.identity_protection_key,
        [0, 1, 2, 3, 4, 5, 6, 7, 8, 9, 10, 11, 12, 13, 14, 15]
    );
}

#[test]
fn random_failures_are_reported() {
    let key = public_key(0x31);
    assert_eq!(
        rcac_params(&key, NOT_BEFORE, NOT_AFTER, 42, &DryRng).unwrap_err(),
        NocError::Rng
    );
    let fabric = sample_fabric();
    let verified = VerifiedCsr { public_key: key };
    assert_eq!(
        issue_noc(&fabric, &verified, 1, &[], (NOT_BEFORE, NOT_AFTER), &DryRng).unwrap_err(),
        NocError::Rng
    );
    assert_eq!(
        issue_icac(&fabric, 1, &key, (NOT_BEFORE, NOT_AFTER), &DryRng).unwrap_err(),
        NocError::Rng
    );
}

#[test]
fn noc_serial_top_bit_is_clear() {
    let fabric = sample_fabric();
    let verified = VerifiedCsr { public_key: public_key(0x32) };
    let noc = issue_noc(
        &fabric,
        &verified,
        0xDEAD_BEEF_CAFE_BABE,
        &[],
        (NOT_BEFORE, NOT_AFTER),
        &AllOnesRng,
    )
    .unwrap();
    assert_eq!(noc.serial[0] & 0x80, 0, "generated NOC serial must have the top bit clear");
}

#[test]
fn issue_icac_produces_self_consistent_certificate() {
    let fabric = sample_fabric();
    let icac_public_key = public_key(0x33);
    let icac = issue_icac(
        &fabric,
        0x0000_0000_0000_0042,
        &icac_public_key,
        (NOT_BEFORE, NOT_AFTER),
        &SystemNocRng,
    )
    .unwrap();
    assert_eq!(icac.issuer_rcac_id, fabric.root_cert.rcac_id);
    assert_eq!(icac.icac_id, 0x0000_0000_0000_0042);
    assert_eq!(Some(icac.issuer_key_identifier), fabric.root_cert.subject_key_identifier);
    assert_eq!(icac.public_key.as_bytes(), icac_public_key.as_bytes());
    assert_eq!((icac.not_before, icac.not_after), (NOT_BEFORE, NOT_AFTER));
}

#[test]
fn issue_noc_produces_self_consistent_certificate() {
    let fabric = sample_fabric();
    let verified = VerifiedCsr { public_key: public_key(0x32) };
    let noc = issue_noc(
        &fabric,
        &verified,
        0xDEAD_BEEF_CAFE_BABE,
        &[0x0001_0002],
        (NOT_BEFORE, NOT_AFTER),
        &SystemNocRng,
    )
    .unwrap();
    assert_eq!(noc.fabric_id, 0x0000_0000_0000_0001);
    assert_eq!(noc.node_id, 0xDEAD_BEEF_CAFE_BABE);
    assert_eq!(noc.case_authenticated_tags, vec![0x0001_0002]);
    assert_eq!(noc.issuer_rcac_id, fabric.root_cert.rcac_id);
    assert_eq!(noc.public_key.as_bytes(), verified.public_key.as_bytes());
}

#[test]
fn a_root_without_key_identifier_issues_nothing() {
    let mut fabric = sample_fabric();
    fabric.root_cert = RootCertificate { rcac_id: 7, subject_key_identifier: None };
    let verified = VerifiedCsr { public_key: public_key(0x32) };
    let missing = NocError::CertBuild(CertFault::MissingField(4));
    assert_eq!(
        fabric.issue_noc(&verified, 1, &[], (NOT_BEFORE, NOT_AFTER), &DryRng).unwrap_err(),
        missing
    );
    assert_eq!(
        issue_icac(&fabric, 1, &verified.public_key, (NOT_BEFORE, NOT_AFTER), &DryRng).unwrap_err(),
        missing
    );
    assert_eq!(
        noc_params(&fabric, &verified.public_key, 1, &[], (NOT_BEFORE, NOT_AFTER), vec![1])
            .unwrap_err(),
        missing
    );
}

/// A public key of a root.
const RCAC_PUBKEY: [u8; 65] = [
    4, 55, 17, 222, 33, 152, 214, 179, 35, 51, 115, 190, 136, 95, 63, 26, 125, 10, 97, 131, 176,
    151, 11, 205, 27, 2, 130, 136, 147, 12, 67, 70, 185, 116, 34, 216, 29, 211, 22, 10, 56, 163,
    118, 47, 16, 245, 223, 113, 84, 161, 23, 1, 250, 180, 235, 163, 5, 248, 45, 42, 219, 54, 128,
    168, 76,
];

/// A public key of a node.
const CSR_PUBKEY: [u8; 65] = [
    4, 1, 191, 75, 190, 104, 72, 238, 159, 14, 161, 72, 5, 185, 59, 232, 240, 115, 159, 47, 38,
    106, 154, 159, 127, 252, 168, 119, 154, 113, 252, 247, 82, 130, 96, 49, 184, 226, 191, 242,
    124, 85, 198, 137, 250, 174, 16, 111, 75, 86, 25, 114, 191, 224, 210, 217, 57, 57, 214, 5,
    132, 79, 59, 146, 58,
];

#[test]
fn issued_values_are_stable() {
    let root_key = PublicKey::new(RCAC_PUBKEY).unwrap();
    let root = rcac_params(&root_key, NOT_BEFORE, NOT_AFTER, 7, &CountingRng).unwrap();
    let fabric = FabricRecord::new_root_only(1, &root, &CountingRng).unwrap();
    let verified = VerifiedCsr { public_key: PublicKey::new(CSR_PUBKEY).unwrap() };
    let noc = issue_noc(
        &fabric,
        &verified,
        0xDEAD_BEEF_CAFE_BABE,
        &[0x0001_0002],
        (NOT_BEFORE, NOT_AFTER),
        &CountingRng,
    )
    .unwrap();
    assert_eq!(noc.serial, vec![0, 1, 2, 3, 4, 5, 6, 7, 8, 9, 10, 11, 12, 13, 14, 15, 16, 17, 18]);
    assert_eq!(noc.issuer_rcac_id, 7);
    assert_eq!(
        noc.issuer_key_identifier,
        vec![
            119, 26, 238, 51, 116, 65, 105, 44, 22, 8, 87, 137, 161, 158, 217, 247, 199, 49, 16,
            135
        ]
    );
    assert_eq!(
        key_identifier(&verified.public_key),
        vec![
            45, 82, 3, 45, 20, 93, 191, 91, 118, 90, 178, 217, 147, 62, 26, 206, 48, 232, 36, 24
        ]
    );
    let again = rcac_params_with(&root_key, NOT_BEFORE, NOT_AFTER, 7, root.serial.clone());
    assert_eq!(again.subject_key_identifier, root.subject_key_identifier);
    assert_eq!(mask_serial(vec![0xFF; 19])[0], 0x7F);
}

#[test]
fn csr_conclusion_reports_the_first_failed_check() {
    let (csr_der, public_key) = mint_pkcs10_csr(0x41);
    let nonce = [0x33u8; 32];
    let elements = parse_nocsr(&write_nocsr(&csr_der, &nonce, None, None, None)).unwrap();
    let parsed = parse_and_verify_csr(&elements.csr_der).unwrap();
    assert_eq!(parsed.public_key.as_bytes(), &public_key);
    let wrong = [0x44u8; 32];
    assert_eq!(
        conclude_csr_response(&elements, Err(NocError::BadCsrSelfSignature), &wrong, false)
            .unwrap_err(),
        NocError::BadCsrSelfSignature
    );
    assert_eq!(
        conclude_csr_response(&elements, Ok(parsed), &wrong, false).unwrap_err(),
        NocError::NonceMismatch
    );
    assert_eq!(
        conclude_csr_response(&elements, Ok(parsed), &nonce, false).unwrap_err(),
        NocError::BadCsrAttestationSignature
    );
    let verified = conclude_csr_response(&elements, Ok(parsed), &nonce, true).unwrap();
    assert_eq!(verified.public_key.as_bytes(), &public_key);
}

#[test]
fn noc_error_texts() {
    assert_eq!(
        NocError::NonceMismatch.message(),
        "CSRNonce did not match commissioner-issued value"
    );
    assert_eq!(
        NocError::MalformedResponse("NOCResponse: missing StatusCode field").message(),
        "OpCreds cluster response is structurally malformed: NOCResponse: missing StatusCode field"
    );
    assert_eq!(NocError::Rng.message(), "RNG failure");
}

#[test]
fn fabric_index_is_there_exactly_on_success() {
    assert_eq!(
        decode_noc_response(&[0x15, 0x24, 0, 0, 0x18]).unwrap_err(),
        NocError::MalformedResponse("NOCResponse: success without FabricIndex field")
    );
    assert_eq!(
        decode_noc_response(&write_noc_response(9, Some(1), None)).unwrap_err(),
        NocError::MalformedResponse("NOCResponse: failure with FabricIndex field")
    );
    assert_eq!(decode_noc_response(&write_noc_response(0, Some(0), None)).unwrap().fabric_index, Some(0));
}

#[test]
fn unknown_containers_are_passed_over() {
    // A structure under tag 7 that holds what looks like a field.
    let nested = [0x35, 0x07, 0x24, 0x00, 0x09, 0x18];
    let mut tlv = vec![0x15];
    tlv.extend_from_slice(&nested);
    tlv.extend_from_slice(&[0x24, 0x00, 0x00, 0x24, 0x01, 0x03, 0x18]);
    let response = decode_noc_response(&tlv).unwrap();
    assert_eq!((response.status, response.fabric_index), (0, Some(3)));

    let mut tlv = vec![0x15];
    tlv.extend_from_slice(&nested);
    tlv.extend_from_slice(&[0x30, 0x00, 0x01, 0xAA, 0x18]);
    assert_eq!(decode_certificate_chain_response(&tlv).unwrap().certificate, vec![0xAA]);

    let signed = write_csr_response(b"elements", &[0xAB; 64]);
    let mut tlv = vec![0x15];
    tlv.extend_from_slice(&nested);
    tlv.extend_from_slice(&signed[1..]);
    assert_eq!(decode_csr_response(&tlv).unwrap().nocsr_elements, b"elements");
    assert_eq!(decode_attestation_response(&tlv).unwrap().attestation_elements, b"elements");
    // A container that does not end leaves the structure open too.
    assert_eq!(
        decode_noc_response(&[0x15, 0x24, 0x00, 0x00, 0x35, 0x07, 0x18]).unwrap_err(),
        NocError::ClusterCodec(TlvError::UnclosedContainer)
    );
}

#[test]
fn issuing_fails_with_the_error_of_the_source() {
    let fabric = sample_fabric();
    let csr = VerifiedCsr { public_key: public_key(0x41) };
    let validity = (NOT_BEFORE, NOT_AFTER);
    assert_eq!(issue_noc(&fabric, &csr, 1, &[], validity, &DryRng).unwrap_err(), NocError::Rng);
    assert_eq!(fabric.issue_noc(&csr, 1, &[], validity, &DryRng).unwrap_err(), NocError::Rng);
    assert_eq!(
        issue_icac(&fabric, 1, &public_key(0x42), validity, &DryRng).unwrap_err(),
        NocError::Rng
    );
}
