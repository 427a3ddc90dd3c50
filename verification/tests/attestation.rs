use matter_commissioning::attestation::chain::{conclude_chain, map_webpki_error};
use matter_commissioning::attestation::error::{map_path_fault, ParseFault, PathFault};
use matter_commissioning::attestation::extensions::{
    extract_pid, extract_vid, parse_identifier, MatterDnError, NameAttribute, MATTER_PID_OID,
    MATTER_VID_OID,
};
use matter_commissioning::attestation::profile::check_extensions;
use matter_commissioning::attestation::x509::{find_subject_key_id, CertExtension};
use matter_commissioning::attestation::{verify_attestation_cert_format, CertRole};
use matter_commissioning::{
    extract_attestation_elements_fields, verify_attestation_response, verify_chain,
    verify_dac_signed_elements, AttestationError, AttestationResponse, Dac, Paa, PaaTrustStore,
    Pai, ProductId, VendorId,
};
use p256::ecdsa::signature::Signer;
use p256::ecdsa::{Signature, SigningKey};
use rustls_pki_types::UnixTime;
use std::time::Duration;

// ---- hand-made certificates -------------------------------------------------

fn der(tag: u8, body: &[u8]) -> Vec<u8> {
    let mut out = vec![tag];
    if body.len() < 0x80 {
        out.push(body.len() as u8);
    } else if body.len() <= 0xff {
        out.extend_from_slice(&[0x81, body.len() as u8]);
    } else {
        out.extend_from_slice(&[0x82, (body.len() >> 8) as u8, body.len() as u8]);
    }
    out.extend_from_slice(body);
    out
}

fn seq(parts: &[&[u8]]) -> Vec<u8> {
    der(0x30, &parts.concat())
}

fn bit_string(bytes: &[u8]) -> Vec<u8> {
    der(0x03, &[&[0][..], bytes].concat())
}

const COMMON_NAME_OID: [u8; 3] = [0x55, 0x04, 0x03];

/// A name of attributes, each a text under its type.
fn name(attributes: &[(&[u8], &str)]) -> Vec<u8> {
    let sets: Vec<u8> = attributes
        .iter()
        .map(|(oid, text)| {
            der(0x31, &seq(&[&der(0x06, oid), &der(0x0C, text.as_bytes())]))
        })
        .collect::<Vec<Vec<u8>>>()
        .concat();
    der(0x30, &sets)
}

fn key_of(seed: u8) -> (SigningKey, Vec<u8>) {
    let mut scalar = [0u8; 32];
    scalar[0] = seed;
    let key = SigningKey::from_slice(&scalar).unwrap();
    let public = key.verifying_key().to_encoded_point(false).as_bytes().to_vec();
    (key, public)
}

fn extension(id: u8, critical: bool, value: &[u8]) -> Vec<u8> {
    let oid = der(0x06, &[0x55, 0x1D, id]);
    let value = der(0x04, value);
    if critical {
        seq(&[&oid, &[0x01, 0x01, 0xFF], &value])
    } else {
        seq(&[&oid, &value])
    }
}

fn basic_constraints(ca: bool, path_len: Option<u8>) -> Vec<u8> {
    let mut body = vec![];
    if ca {
        body.extend_from_slice(&[0x01, 0x01, 0xFF]);
    }
    if let Some(n) = path_len {
        body.extend_from_slice(&[0x02, 0x01, n]);
    }
    extension(19, true, &der(0x30, &body))
}

/// A key usage whose bits are given from the left.
fn key_usage(critical: bool, unused: u8, bits: u8) -> Vec<u8> {
    extension(15, critical, &[0x03, 0x02, unused, bits])
}

fn skid(seed: u8) -> Vec<u8> {
    extension(14, false, &der(0x04, &[seed; 20]))
}

fn akid(seed: u8) -> Vec<u8> {
    extension(35, false, &der(0x30, &der(0x80, &[seed; 20])))
}

const DIGITAL_SIGNATURE: (u8, u8) = (7, 0x80);
const CERT_AND_CRL_SIGN: (u8, u8) = (1, 0x06);

struct Cert {
    issuer: Vec<u8>,
    subject: Vec<u8>,
    key: u8,
    signer: u8,
    not_after: &'static str,
    extensions: Vec<Vec<u8>>,
}

impl Cert {
    fn build(&self) -> Vec<u8> {
        let algorithm = seq(&[&der(0x06, &[0x2A, 0x86, 0x48, 0xCE, 0x3D, 0x04, 0x03, 0x02])]);
        let spki = seq(&[
            &seq(&[
                &der(0x06, &[0x2A, 0x86, 0x48, 0xCE, 0x3D, 0x02, 0x01]),
                &der(0x06, &[0x2A, 0x86, 0x48, 0xCE, 0x3D, 0x03, 0x01, 0x07]),
            ]),
            &bit_string(&key_of(self.key).1),
        ]);
        let validity =
            seq(&[&der(0x17, b"230101000000Z"), &der(0x17, self.not_after.as_bytes())]);
        let tbs = seq(&[
            &der(0xA0, &[0x02, 0x01, 0x02]),
            &[0x02, 0x01, 0x07],
            &algorithm,
            &self.issuer,
            &validity,
            &self.subject,
            &spki,
            &der(0xA3, &der(0x30, &self.extensions.concat())),
        ]);
        let signature: Signature = key_of(self.signer).0.sign(&tbs);
        seq(&[&tbs, &algorithm, &bit_string(signature.to_der().as_bytes())])
    }
}

fn root_name(vid: Option<&str>) -> Vec<u8> {
    match vid {
        Some(vid) => name(&[(&COMMON_NAME_OID, "Test PAA"), (&MATTER_VID_OID, vid)]),
        None => name(&[(&COMMON_NAME_OID, "Test PAA without vendor")]),
    }
}

fn paa_der(vid: Option<&str>) -> Vec<u8> {
    Cert {
        issuer: root_name(vid),
        subject: root_name(vid),
        key: 1,
        signer: 1,
        not_after: "430101000000Z",
        extensions: vec![
            basic_constraints(true, Some(1)),
            key_usage(true, CERT_AND_CRL_SIGN.0, CERT_AND_CRL_SIGN.1),
            skid(1),
            akid(1),
        ],
    }
    .build()
}

fn pai_name(vid: &str, pid: Option<&str>) -> Vec<u8> {
    let mut attributes: Vec<(&[u8], &str)> =
        vec![(&COMMON_NAME_OID, "Test PAI"), (&MATTER_VID_OID, vid)];
    if let Some(pid) = pid {
        attributes.push((&MATTER_PID_OID, pid));
    }
    name(&attributes)
}

fn pai_extensions() -> Vec<Vec<u8>> {
    vec![
        basic_constraints(true, Some(0)),
        key_usage(true, CERT_AND_CRL_SIGN.0, CERT_AND_CRL_SIGN.1),
        skid(2),
        akid(1),
    ]
}

fn pai_cert(root: Option<&str>, vid: &str, pid: Option<&str>) -> Cert {
    Cert {
        issuer: root_name(root),
        subject: pai_name(vid, pid),
        key: 2,
        signer: 1,
        not_after: "430101000000Z",
        extensions: pai_extensions(),
    }
}

fn pai_der() -> Vec<u8> {
    pai_cert(Some("FFF1"), "FFF1", Some("8000")).build()
}

fn pai_with(extensions: Vec<Vec<u8>>) -> Vec<u8> {
    Cert { extensions, ..pai_cert(Some("FFF1"), "FFF1", Some("8000")) }.build()
}

fn dac_extensions() -> Vec<Vec<u8>> {
    vec![
        basic_constraints(false, None),
        key_usage(true, DIGITAL_SIGNATURE.0, DIGITAL_SIGNATURE.1),
        skid(3),
        akid(2),
    ]
}

fn dac_cert(issuer: Vec<u8>, vid: &str, pid: &str) -> Cert {
    Cert {
        issuer,
        subject: name(&[
            (&COMMON_NAME_OID, "Test DAC"),
            (&MATTER_VID_OID, vid),
            (&MATTER_PID_OID, pid),
        ]),
        key: 3,
        signer: 2,
        not_after: "330101000000Z",
        extensions: dac_extensions(),
    }
}

fn dac_der() -> Vec<u8> {
    dac_cert(pai_name("FFF1", Some("8000")), "FFF1", "8000").build()
}

fn dac_with(extensions: Vec<Vec<u8>>) -> Vec<u8> {
    Cert { extensions, ..dac_cert(pai_name("FFF1", Some("8000")), "FFF1", "8000") }.build()
}

/// A second in November 2023.
const NOW: u64 = 1_700_000_000;

// ---- errors -----------------------------------------------------------------

fn epoch() -> UnixTime {
    UnixTime::since_unix_epoch(Duration::from_secs(0))
}

#[test]
fn maps_cert_expired_to_time_bounds_violation() {
    let err = map_webpki_error(webpki::Error::CertExpired { time: epoch(), not_after: epoch() });
    assert!(matches!(err, AttestationError::TimeBoundsViolation));
}

#[test]
fn maps_cert_not_valid_yet_to_time_bounds_violation() {
    let err =
        map_webpki_error(webpki::Error::CertNotValidYet { time: epoch(), not_before: epoch() });
    assert!(matches!(err, AttestationError::TimeBoundsViolation));
}

#[test]
fn maps_invalid_cert_validity_to_time_bounds_violation() {
    let err = map_webpki_error(webpki::Error::InvalidCertValidity);
    assert!(matches!(err, AttestationError::TimeBoundsViolation));
}

#[test]
fn maps_path_len_constraint_violated_to_basic_constraints_violation() {
    let err = map_webpki_error(webpki::Error::PathLenConstraintViolated);
    assert!(matches!(err, AttestationError::BasicConstraintsViolation));
}

#[test]
fn maps_end_entity_used_as_ca_to_basic_constraints_violation() {
    let err = map_webpki_error(webpki::Error::EndEntityUsedAsCa);
    assert!(matches!(err, AttestationError::BasicConstraintsViolation));
}

#[test]
fn maps_ca_used_as_end_entity_to_basic_constraints_violation() {
    let err = map_webpki_error(webpki::Error::CaUsedAsEndEntity);
    assert!(matches!(err, AttestationError::BasicConstraintsViolation));
}

#[test]
fn maps_unknown_issuer_to_untrusted_root() {
    let err = map_webpki_error(webpki::Error::UnknownIssuer);
    assert!(matches!(err, AttestationError::UntrustedRoot));
}

#[test]
fn maps_long_tail_to_invalid_chain() {
    let err = map_webpki_error(webpki::Error::InvalidSignatureForPublicKey);
    assert!(matches!(err, AttestationError::InvalidChain(_)));
}

#[test]
fn maps_each_path_fault() {
    for (fault, error) in [
        (PathFault::CertExpired, AttestationError::TimeBoundsViolation),
        (PathFault::CertNotValidYet, AttestationError::TimeBoundsViolation),
        (PathFault::InvalidCertValidity, AttestationError::TimeBoundsViolation),
        (PathFault::PathLenConstraintViolated, AttestationError::BasicConstraintsViolation),
        (PathFault::EndEntityUsedAsCa, AttestationError::BasicConstraintsViolation),
        (PathFault::CaUsedAsEndEntity, AttestationError::BasicConstraintsViolation),
        (PathFault::UnknownIssuer, AttestationError::UntrustedRoot),
        (PathFault::Other, AttestationError::InvalidChain(PathFault::Other)),
    ] {
        assert_eq!(map_path_fault(fault), error);
    }
}

#[test]
fn bad_response_signature_variant_exists() {
    let err = AttestationError::BadResponseSignature;
    assert!(matches!(err, AttestationError::BadResponseSignature));
    assert_eq!(err.message(), "AttestationResponse signature verification failed");
}

#[test]
fn attestation_error_texts() {
    assert_eq!(
        AttestationError::CertFormatViolation { reason: "no reason" }.message(),
        "attestation certificate format violation: no reason"
    );
    assert_eq!(AttestationError::Parse(ParseFault::Der).message(), "X.509 parse failure");
    assert_eq!(AttestationError::UntrustedRoot.message(), "PAA not in trust store");
}

// ---- identifiers ------------------------------------------------------------

#[test]
fn vendor_id_round_trips_through_u16() {
    let v = VendorId::new(0xFFF1);
    assert_eq!(v.as_u16(), 0xFFF1);
}

#[test]
fn vendor_id_display_is_4char_uppercase_hex() {
    assert_eq!(VendorId::new(0x0001).to_hex(), "0001");
    assert_eq!(VendorId::new(0xFFF1).to_hex(), "FFF1");
    assert_eq!(VendorId::new(0x00AB).to_hex(), "00AB");
}

#[test]
fn product_id_round_trips_through_u16() {
    let p = ProductId::new(0x8000);
    assert_eq!(p.as_u16(), 0x8000);
}

#[test]
fn product_id_display_is_4char_uppercase_hex() {
    assert_eq!(ProductId::new(0x0001).to_hex(), "0001");
    assert_eq!(ProductId::new(0x8000).to_hex(), "8000");
}

/// The arcs of an encoded object identifier.
fn arcs(oid: &[u8]) -> Vec<u64> {
    let mut parts = vec![u64::from(oid[0]) / 40, u64::from(oid[0]) % 40];
    let mut arc: u64 = 0;
    for b in &oid[1..] {
        arc = arc * 128 + u64::from(*b & 0x7F);
        if *b < 0x80 {
            parts.push(arc);
            arc = 0;
        }
    }
    parts
}

#[test]
fn matter_vid_oid_constant_matches_spec_arc() {
    assert_eq!(arcs(&MATTER_VID_OID), vec![1, 3, 6, 1, 4, 1, 37244, 2, 1]);
    assert_eq!(arcs(&MATTER_PID_OID), vec![1, 3, 6, 1, 4, 1, 37244, 2, 2]);
}

fn dac_subject() -> Vec<NameAttribute> {
    vec![
        NameAttribute { oid: COMMON_NAME_OID.to_vec(), value: Some("Test DAC".to_string()) },
        NameAttribute { oid: MATTER_VID_OID.to_vec(), value: Some("FFF1".to_string()) },
        NameAttribute { oid: MATTER_PID_OID.to_vec(), value: Some("8000".to_string()) },
    ]
}

#[test]
fn extract_vid_finds_dac_vid() {
    let vid = extract_vid(&dac_subject()).expect("VID well-formed").expect("VID present");
    assert_eq!(vid, VendorId::new(0xFFF1));
}

#[test]
fn extract_pid_finds_dac_pid() {
    let pid = extract_pid(&dac_subject()).expect("PID well-formed").expect("PID present");
    assert_eq!(pid, ProductId::new(0x8000));
}

#[test]
fn malformed_identifiers_are_told_apart() {
    let mut subject = dac_subject();
    subject[1].value = None;
    assert_eq!(extract_vid(&subject).unwrap_err(), MatterDnError::NonUtf8Value);
    assert_eq!(extract_vid(&subject[..1].to_vec()).unwrap(), None);
    assert_eq!(
        parse_identifier(b"FFF10").unwrap_err(),
        MatterDnError::WrongLength { actual: 5 }
    );
    assert_eq!(parse_identifier(b"FFG1").unwrap_err(), MatterDnError::NotHex);
    assert_eq!(parse_identifier(b"fff1").unwrap_err(), MatterDnError::NotUppercase);
    assert_eq!(parse_identifier(b"+FFF").unwrap_err(), MatterDnError::NotUppercase);
    for value in [0u16, 1, 0x00AB, 0x8000, 0xFFF1, u16::MAX] {
        assert_eq!(parse_identifier(VendorId::new(value).to_hex().as_bytes()).unwrap(), value);
    }
}

// ---- certificates -----------------------------------------------------------

#[test]
fn dac_from_der_parses_happy_path() {
    let dac = Dac::from_der(&dac_der()).expect("happy-path DAC parses");
    assert_eq!(dac.subject_vid(), VendorId::new(0xFFF1));
    assert_eq!(dac.subject_pid(), ProductId::new(0x8000));
}

#[test]
fn dac_round_trips_der_bytes() {
    let dac = Dac::from_der(&dac_der()).unwrap();
    assert_eq!(dac.der(), dac_der());
}

#[test]
fn dac_public_key_is_sec1_uncompressed_p256() {
    let dac = Dac::from_der(&dac_der()).unwrap();
    let pk = dac.public_key();
    assert_eq!(pk.len(), 65, "P-256 uncompressed SPKI must be 65 bytes");
    assert_eq!(pk[0], 0x04, "leading byte must be 0x04 (uncompressed)");
    assert_eq!(pk, key_of(3).1);
}

#[test]
fn dac_from_der_rejects_empty_input() {
    let err = Dac::from_der(&[]).expect_err("empty bytes must error");
    assert!(matches!(err, AttestationError::Parse(_)));
}

#[test]
fn dac_from_der_rejects_truncated_input() {
    let err = Dac::from_der(&dac_der()[..10]).expect_err("truncated must error");
    assert!(matches!(err, AttestationError::Parse(_)));
}

#[test]
fn dac_from_der_rejects_random_bytes() {
    let garbage = vec![0xAA; 256];
    let err = Dac::from_der(&garbage).expect_err("garbage must error");
    assert!(matches!(err, AttestationError::Parse(_)));
}

#[test]
fn dac_subject_needs_both_identifiers() {
    let mut cert = dac_cert(pai_name("FFF1", None), "FFF1", "8000");
    cert.subject = name(&[(&MATTER_VID_OID, "FFF1")]);
    assert_eq!(
        Dac::from_der(&cert.build()).unwrap_err(),
        AttestationError::Parse(ParseFault::MissingRequired("DAC subject ProductId"))
    );
    cert.subject = name(&[(&MATTER_PID_OID, "8000")]);
    assert_eq!(
        Dac::from_der(&cert.build()).unwrap_err(),
        AttestationError::Parse(ParseFault::MissingRequired("DAC subject VendorId"))
    );
    cert.subject = name(&[(&MATTER_VID_OID, "fff1"), (&MATTER_PID_OID, "8000")]);
    assert_eq!(
        Dac::from_der(&cert.build()).unwrap_err(),
        AttestationError::Parse(ParseFault::Dn(MatterDnError::NotUppercase))
    );
}

#[test]
fn pai_from_der_parses_happy_path() {
    let pai = Pai::from_der(&pai_der()).expect("happy-path PAI parses");
    assert_eq!(pai.subject_vid(), VendorId::new(0xFFF1));
    assert_eq!(pai.subject_pid(), Some(ProductId::new(0x8000)));
    assert_eq!(pai.issuer_raw(), root_name(Some("FFF1")));
}

#[test]
fn pai_round_trips_der_bytes() {
    let pai = Pai::from_der(&pai_der()).unwrap();
    assert_eq!(pai.der(), pai_der());
}

#[test]
fn pai_public_key_is_sec1_uncompressed_p256() {
    let pai = Pai::from_der(&pai_der()).unwrap();
    let pk = pai.public_key();
    assert_eq!(pk.len(), 65);
    assert_eq!(pk[0], 0x04);
}

#[test]
fn pai_from_der_rejects_garbage() {
    let err = Pai::from_der(&vec![0xAA; 256]).expect_err("garbage must error");
    assert!(matches!(err, AttestationError::Parse(_)));
}

#[test]
fn paa_from_der_parses_vid_scoped_root() {
    let paa = Paa::from_der(&paa_der(Some("FFF1"))).expect("VID-scoped PAA parses");
    assert_eq!(paa.subject_vid(), Some(VendorId::new(0xFFF1)));
}

#[test]
fn paa_from_der_parses_unscoped_root() {
    let paa = Paa::from_der(&paa_der(None)).expect("non-VID-scoped PAA parses");
    assert_eq!(paa.subject_vid(), None);
}

#[test]
fn paa_round_trips_der_bytes() {
    let paa = Paa::from_der(&paa_der(Some("FFF1"))).unwrap();
    assert_eq!(paa.der(), paa_der(Some("FFF1")));
    assert_eq!(paa.subject_raw(), root_name(Some("FFF1")));
}

#[test]
fn paa_public_key_is_sec1_uncompressed_p256() {
    let paa = Paa::from_der(&paa_der(Some("FFF1"))).unwrap();
    assert_eq!(paa.public_key().len(), 65);
    assert_eq!(paa.public_key()[0], 0x04);
}

#[test]
fn paa_from_der_rejects_garbage() {
    let err = Paa::from_der(&vec![0xAA; 256]).expect_err("garbage must error");
    assert!(matches!(err, AttestationError::Parse(_)));
}

#[test]
fn paa_must_not_name_a_product() {
    let subject = name(&[(&MATTER_VID_OID, "FFF1"), (&MATTER_PID_OID, "8000")]);
    let cert = Cert {
        issuer: subject.clone(),
        subject,
        key: 1,
        signer: 1,
        not_after: "430101000000Z",
        extensions: vec![],
    };
    assert!(matches!(
        Paa::from_der(&cert.build()).unwrap_err(),
        AttestationError::Parse(ParseFault::ForbiddenField(_))
    ));
}

#[test]
fn paa_names_its_key() {
    let paa = Paa::from_der(&paa_der(None)).unwrap();
    assert_eq!(paa.subject_key_identifier(), Some(vec![1; 20]));
    assert_eq!(find_subject_key_id(&vec![CertExtension::Other]), None);
}

// ---- profile ----------------------------------------------------------------

#[test]
fn synthetic_well_formed_certs_pass() {
    verify_attestation_cert_format(&dac_der(), CertRole::Dac).unwrap();
    verify_attestation_cert_format(&pai_der(), CertRole::Pai).unwrap();
    verify_attestation_cert_format(&paa_der(None), CertRole::Paa).unwrap();
}

#[test]
fn dac_with_keycertsign_bit_is_rejected() {
    let mut extensions = dac_extensions();
    extensions[1] = key_usage(true, 2, 0x84);
    assert!(matches!(
        verify_attestation_cert_format(&dac_with(extensions), CertRole::Dac),
        Err(AttestationError::CertFormatViolation { .. })
    ));
}

#[test]
fn dac_missing_skid_is_rejected() {
    let mut extensions = dac_extensions();
    extensions.remove(2);
    assert!(matches!(
        verify_attestation_cert_format(&dac_with(extensions), CertRole::Dac),
        Err(AttestationError::CertFormatViolation { .. })
    ));
}

#[test]
fn dac_missing_akid_is_rejected() {
    let mut extensions = dac_extensions();
    extensions.remove(3);
    assert!(matches!(
        verify_attestation_cert_format(&dac_with(extensions), CertRole::Dac),
        Err(AttestationError::CertFormatViolation { .. })
    ));
}

#[test]
fn dac_keyusage_not_critical_is_rejected() {
    let mut extensions = dac_extensions();
    extensions[1] = key_usage(false, DIGITAL_SIGNATURE.0, DIGITAL_SIGNATURE.1);
    assert!(matches!(
        verify_attestation_cert_format(&dac_with(extensions), CertRole::Dac),
        Err(AttestationError::CertFormatViolation { .. })
    ));
}

#[test]
fn dac_marked_as_ca_is_basic_constraints_violation() {
    let mut extensions = dac_extensions();
    extensions[0] = basic_constraints(true, None);
    assert!(matches!(
        verify_attestation_cert_format(&dac_with(extensions), CertRole::Dac),
        Err(AttestationError::BasicConstraintsViolation)
    ));
}

#[test]
fn pai_pathlen_nonzero_is_basic_constraints_violation() {
    let mut extensions = pai_extensions();
    extensions[0] = basic_constraints(true, Some(1));
    assert!(matches!(
        verify_attestation_cert_format(&pai_with(extensions), CertRole::Pai),
        Err(AttestationError::BasicConstraintsViolation)
    ));
}

#[test]
fn pai_not_ca_is_basic_constraints_violation() {
    let mut extensions = pai_extensions();
    extensions[0] = basic_constraints(false, None);
    assert!(matches!(
        verify_attestation_cert_format(&pai_with(extensions), CertRole::Pai),
        Err(AttestationError::BasicConstraintsViolation)
    ));
}

#[test]
fn pai_without_crlsign_is_rejected() {
    let mut extensions = pai_extensions();
    extensions[1] = key_usage(true, 2, 0x04);
    assert!(matches!(
        verify_attestation_cert_format(&pai_with(extensions), CertRole::Pai),
        Err(AttestationError::CertFormatViolation { .. })
    ));
}

#[test]
fn no_certificate_plays_two_roles() {
    assert!(verify_attestation_cert_format(&pai_der(), CertRole::Dac).is_err());
    assert!(verify_attestation_cert_format(&dac_der(), CertRole::Pai).is_err());
    assert!(verify_attestation_cert_format(&dac_der(), CertRole::Paa).is_err());
}

#[test]
fn garbage_has_no_format() {
    assert_eq!(
        verify_attestation_cert_format(&[0xAA; 256], CertRole::Dac).unwrap_err(),
        AttestationError::Parse(ParseFault::Der)
    );
}

#[test]
fn key_identifiers_take_20_bytes_and_occur_once() {
    let good = vec![
        CertExtension::BasicConstraints { critical: true, ca: false, path_len: None },
        CertExtension::KeyUsage { critical: true, flags: 1 },
        CertExtension::SubjectKeyIdentifier { critical: false, key_id: vec![3; 20] },
        CertExtension::AuthorityKeyIdentifier { critical: false, key_id: Some(vec![2; 20]) },
        CertExtension::Other,
    ];
    check_extensions(CertRole::Dac, &good).unwrap();
    let replaced = |i: usize, e: CertExtension| {
        let mut bad = good.clone();
        bad[i] = e;
        check_extensions(CertRole::Dac, &bad).unwrap_err()
    };
    assert_eq!(
        replaced(2, CertExtension::SubjectKeyIdentifier { critical: false, key_id: vec![3; 19] }),
        AttestationError::CertFormatViolation { reason: "SubjectKeyIdentifier is not 20 bytes" }
    );
    assert_eq!(
        replaced(3, CertExtension::AuthorityKeyIdentifier { critical: false, key_id: None }),
        AttestationError::CertFormatViolation {
            reason: "AuthorityKeyIdentifier keyIdentifier absent or not 20 bytes"
        }
    );
    assert_eq!(
        replaced(4, CertExtension::SubjectKeyIdentifier { critical: false, key_id: vec![3; 20] }),
        AttestationError::CertFormatViolation {
            reason: "SubjectKeyIdentifier duplicated or critical"
        }
    );
}

// ---- trust store ------------------------------------------------------------

#[test]
fn empty_store_is_empty_and_zero_length() {
    let s = PaaTrustStore::empty();
    assert!(s.is_empty());
    assert_eq!(s.len(), 0);
    assert!(s.iter().first().is_none());
}

#[test]
fn add_grows_the_store() {
    let mut s = PaaTrustStore::empty();
    s.add(Paa::from_der(&paa_der(Some("FFF1"))).unwrap());
    assert_eq!(s.len(), 1);
    assert!(!s.is_empty());
}

#[test]
fn iter_returns_paas_in_insertion_order() {
    let mut s = PaaTrustStore::empty();
    let a = Paa::from_der(&paa_der(Some("FFF1"))).unwrap();
    let b = Paa::from_der(&paa_der(None)).unwrap();
    s.add(a);
    s.add(b);
    let roots = s.iter();
    let collected: Vec<&[u8]> = roots.iter().map(|paa| paa.der()).collect();
    assert_eq!(collected.len(), 2);
    assert_eq!(collected[0], paa_der(Some("FFF1")));
    assert_eq!(collected[1], paa_der(None));
}

fn test_roots() -> PaaTrustStore {
    PaaTrustStore::with_csa_test_roots(&paa_der(Some("FFF1")), &paa_der(None)).unwrap()
}

#[test]
fn with_csa_test_roots_loads_both() {
    let s = test_roots();
    assert_eq!(s.len(), 2, "exactly two bundled CSA test roots");
}

#[test]
fn with_csa_test_roots_contains_vid_scoped_fff1() {
    let s = test_roots();
    let has_fff1 = s.iter().iter().any(|paa| paa.subject_vid() == Some(VendorId::new(0xFFF1)));
    assert!(has_fff1, "bundled roots include the VID 0xFFF1 PAA");
}

#[test]
fn with_csa_test_roots_contains_unscoped() {
    let s = test_roots();
    let has_unscoped = s.iter().iter().any(|paa| paa.subject_vid().is_none());
    assert!(has_unscoped, "bundled roots include a non-VID-scoped PAA");
}

#[test]
fn broken_test_roots_are_refused() {
    assert!(PaaTrustStore::with_csa_test_roots(&[0xAA; 9], &paa_der(None)).is_err());
    assert!(PaaTrustStore::with_csa_test_roots(&paa_der(None), &[]).is_err());
}

// ---- chains -----------------------------------------------------------------

#[test]
fn a_sound_chain_attests_vendor_and_product() {
    let dac = Dac::from_der(&dac_der()).unwrap();
    let pai = Pai::from_der(&pai_der()).unwrap();
    let chain = verify_chain(&dac, &pai, &test_roots(), NOW).unwrap();
    assert_eq!(chain.vendor_id, VendorId::new(0xFFF1));
    assert_eq!(chain.product_id, ProductId::new(0x8000));
    assert_eq!(chain.dac_public_key, key_of(3).1);
    assert_eq!(chain.paa_subject, root_name(Some("FFF1")));
}

#[test]
fn an_unscoped_root_serves_every_vendor() {
    let dac = Dac::from_der(&dac_cert(pai_name("1234", None), "1234", "0001").build()).unwrap();
    let pai = Pai::from_der(&pai_cert(None, "1234", None).build()).unwrap();
    let chain = verify_chain(&dac, &pai, &test_roots(), NOW).unwrap();
    assert_eq!(chain.vendor_id, VendorId::new(0x1234));
    assert_eq!(chain.paa_subject, root_name(None));
}

#[test]
fn chains_end_in_time_and_in_a_trusted_root() {
    let dac = Dac::from_der(&dac_der()).unwrap();
    let pai = Pai::from_der(&pai_der()).unwrap();
    for outside in [0, 2_000_000_000] {
        assert_eq!(
            verify_chain(&dac, &pai, &test_roots(), outside).unwrap_err(),
            AttestationError::TimeBoundsViolation
        );
    }
    assert_eq!(
        verify_chain(&dac, &pai, &PaaTrustStore::empty(), NOW).unwrap_err(),
        AttestationError::UntrustedRoot
    );
}

#[test]
fn a_forged_leaf_is_refused() {
    let mut cert = dac_cert(pai_name("FFF1", Some("8000")), "FFF1", "8000");
    cert.signer = 9;
    let dac = Dac::from_der(&cert.build()).unwrap();
    let pai = Pai::from_der(&pai_der()).unwrap();
    assert!(matches!(
        verify_chain(&dac, &pai, &test_roots(), NOW).unwrap_err(),
        AttestationError::InvalidChain(_)
    ));
}

#[test]
fn vendors_and_products_must_agree_along_the_chain() {
    let pai = Pai::from_der(&pai_der()).unwrap();
    let other_vendor =
        Dac::from_der(&dac_cert(pai_name("FFF1", Some("8000")), "FFF2", "8000").build()).unwrap();
    assert_eq!(
        verify_chain(&other_vendor, &pai, &test_roots(), NOW).unwrap_err(),
        AttestationError::VidMismatch { dac: VendorId::new(0xFFF2), pai: VendorId::new(0xFFF1) }
    );
    let other_product =
        Dac::from_der(&dac_cert(pai_name("FFF1", Some("8000")), "FFF1", "8001").build()).unwrap();
    assert_eq!(
        verify_chain(&other_product, &pai, &test_roots(), NOW).unwrap_err(),
        AttestationError::PaiVidNotAuthorized
    );
    let dac = Dac::from_der(&dac_cert(pai_name("FFF2", None), "FFF2", "8000").build()).unwrap();
    let pai = Pai::from_der(&pai_cert(Some("FFF1"), "FFF2", None).build()).unwrap();
    assert_eq!(
        verify_chain(&dac, &pai, &test_roots(), NOW).unwrap_err(),
        AttestationError::PaaVidScopeMismatch {
            paa_vid: VendorId::new(0xFFF1),
            dac_vid: VendorId::new(0xFFF2),
        }
    );
}

#[test]
fn a_refused_path_is_refused_first() {
    let dac = Dac::from_der(&dac_cert(pai_name("FFF1", None), "FFF2", "8000").build()).unwrap();
    let pai = Pai::from_der(&pai_der()).unwrap();
    assert_eq!(
        conclude_chain(Err(PathFault::CertExpired), &dac, &pai, &test_roots()).unwrap_err(),
        AttestationError::TimeBoundsViolation
    );
    let dac = Dac::from_der(&dac_der()).unwrap();
    assert_eq!(
        conclude_chain(Ok(()), &dac, &pai, &PaaTrustStore::empty()).unwrap_err(),
        AttestationError::UntrustedRoot
    );
}

// ---- responses --------------------------------------------------------------

#[test]
fn response_struct_is_constructible() {
    let r = AttestationResponse { attestation_elements: vec![0u8; 0], signature: [0u8; 64] };
    assert_eq!(r.attestation_elements.len(), 0);
    assert_eq!(r.signature.len(), 64);
}

/// A fresh public key and its signature over elements and challenge.
fn mint_signed(elements: &[u8], challenge: &[u8; 16], seed: u8) -> ([u8; 65], [u8; 64]) {
    let (signing_key, public) = key_of(seed);
    let mut pubkey_arr = [0u8; 65];
    pubkey_arr.copy_from_slice(&public);
    let mut tbs = Vec::with_capacity(elements.len() + 16);
    tbs.extend_from_slice(elements);
    tbs.extend_from_slice(challenge);
    let sig: Signature = signing_key.sign(&tbs);
    let mut sig_arr = [0u8; 64];
    sig_arr.copy_from_slice(&sig.to_bytes());
    (pubkey_arr, sig_arr)
}

#[test]
fn verify_attestation_response_accepts_valid_signature() {
    let elements = b"opaque attestation_elements TLV blob".to_vec();
    let challenge = [0x42u8; 16];
    let (pubkey, sig) = mint_signed(&elements, &challenge, 0x01);
    verify_dac_signed_elements(&elements, &challenge, &pubkey, &sig).unwrap();
    let response = AttestationResponse { attestation_elements: elements, signature: sig };
    verify_attestation_response(&response, &challenge, &pubkey)
        .expect("valid signature must verify");
}

#[test]
fn verify_rejects_flipped_signature_byte() {
    let elements = b"some elements".to_vec();
    let challenge = [0x42u8; 16];
    let (pubkey, mut sig) = mint_signed(&elements, &challenge, 0x02);
    sig[0] ^= 0x80;
    let response = AttestationResponse { attestation_elements: elements, signature: sig };
    let err = verify_attestation_response(&response, &challenge, &pubkey)
        .expect_err("flipped signature byte must fail");
    assert!(matches!(err, AttestationError::BadResponseSignature));
}

#[test]
fn verify_rejects_wrong_challenge() {
    let elements = b"some elements".to_vec();
    let challenge_correct = [0x42u8; 16];
    let (pubkey, sig) = mint_signed(&elements, &challenge_correct, 0x03);
    let response = AttestationResponse { attestation_elements: elements, signature: sig };
    let challenge_wrong = [0x43u8; 16];
    let err = verify_attestation_response(&response, &challenge_wrong, &pubkey)
        .expect_err("wrong challenge must fail");
    assert!(matches!(err, AttestationError::BadResponseSignature));
}

#[test]
fn verify_rejects_tampered_elements() {
    let elements = b"some elements".to_vec();
    let challenge = [0x42u8; 16];
    let (pubkey, sig) = mint_signed(&elements, &challenge, 0x04);
    let mut tampered = elements.clone();
    tampered[0] ^= 0x80;
    let response = AttestationResponse { attestation_elements: tampered, signature: sig };
    let err = verify_attestation_response(&response, &challenge, &pubkey)
        .expect_err("tampered elements must fail");
    assert!(matches!(err, AttestationError::BadResponseSignature));
}

#[test]
fn verify_rejects_wrong_public_key() {
    let elements = b"some elements".to_vec();
    let challenge = [0x42u8; 16];
    let (_pubkey_correct, sig) = mint_signed(&elements, &challenge, 0x05);
    let (pubkey_wrong, _other_sig) = mint_signed(&elements, &challenge, 0x06);
    let response = AttestationResponse { attestation_elements: elements, signature: sig };
    let err = verify_attestation_response(&response, &challenge, &pubkey_wrong)
        .expect_err("wrong public key must fail");
    assert!(matches!(err, AttestationError::BadResponseSignature));
}

#[test]
fn verify_rejects_malformed_public_key() {
    let elements = b"some elements".to_vec();
    let challenge = [0x42u8; 16];
    let (_pubkey, sig) = mint_signed(&elements, &challenge, 0x07);
    let response = AttestationResponse { attestation_elements: elements, signature: sig };
    let too_short = vec![0u8; 32];
    let err = verify_attestation_response(&response, &challenge, &too_short)
        .expect_err("malformed pubkey must fail");
    assert!(matches!(err, AttestationError::BadResponseSignature));
}

#[test]
fn extract_attestation_elements_fields_happy_path() {
    let nonce = [0xAB_u8; 32];
    let mut tlv = vec![0x15];
    tlv.extend_from_slice(&[0x30, 0x01, 0x03, 0xCD, 0xCD, 0xCD]);
    tlv.extend_from_slice(&[0x30, 0x02, 0x20]);
    tlv.extend_from_slice(&nonce);
    tlv.extend_from_slice(&[0x27, 0x03]);
    tlv.extend_from_slice(&0x42_u64.to_le_bytes());
    tlv.push(0x18);

    let fields = extract_attestation_elements_fields(&tlv).expect("happy path decodes");
    assert_eq!(fields.certification_declaration, vec![0xCD, 0xCD, 0xCD]);
    assert_eq!(fields.attestation_nonce, nonce);
    assert_eq!(fields.timestamp_epoch_seconds, 0x42);
}

#[test]
fn extract_attestation_elements_fields_rejects_malformed() {
    let err = extract_attestation_elements_fields(&[0xFF]).expect_err("malformed");
    assert!(matches!(err, AttestationError::ResponseElementsMalformed));
}

#[test]
fn extract_attestation_elements_fields_rejects_short_nonce() {
    let mut tlv = vec![0x15];
    tlv.extend_from_slice(&[0x30, 0x01, 0x03, 0xCD, 0xCD, 0xCD]);
    tlv.extend_from_slice(&[0x30, 0x02, 0x10]);
    tlv.extend_from_slice(&[0u8; 16]);
    tlv.extend_from_slice(&[0x27, 0x03]);
    tlv.extend_from_slice(&0_u64.to_le_bytes());
    tlv.push(0x18);

    let err = extract_attestation_elements_fields(&tlv).expect_err("short nonce");
    assert!(matches!(err, AttestationError::ResponseElementsMalformed));
}

/// The three fields that are needed, encoded one behind the other.
fn needed_fields() -> Vec<u8> {
    let mut tlv = vec![0x30, 0x01, 0x03, 0xCD, 0xCD, 0xCD, 0x30, 0x02, 0x20];
    tlv.extend_from_slice(&[0xAB; 32]);
    tlv.extend_from_slice(&[0x24, 0x03, 0x42]);
    tlv
}

fn in_structure(parts: &[&[u8]]) -> Vec<u8> {
    let mut tlv = vec![0x15];
    for part in parts {
        tlv.extend_from_slice(part);
    }
    tlv.push(0x18);
    tlv
}

#[test]
fn other_attestation_elements_are_skipped() {
    let needed = needed_fields();
    // A scalar, and a structure that holds a list and what looks like a field.
    let scalar = [0x30, 0x04, 0x01, 0xEE];
    let nested = [0x35, 0x06, 0x37, 0x01, 0x18, 0x30, 0x01, 0x01, 0x99, 0x18];
    for tlv in [
        in_structure(&[&needed]),
        in_structure(&[&scalar, &needed]),
        in_structure(&[&nested, &needed]),
        in_structure(&[&needed, &nested, &scalar]),
        in_structure(&[&needed[..6], &nested, &needed[6..]]),
    ] {
        let fields = extract_attestation_elements_fields(&tlv).unwrap();
        assert_eq!(fields.certification_declaration, vec![0xCD, 0xCD, 0xCD]);
        assert_eq!(fields.attestation_nonce, [0xAB; 32]);
        assert_eq!(fields.timestamp_epoch_seconds, 0x42);
    }
}

#[test]
fn attestation_elements_have_their_type_and_occur_once() {
    let needed = needed_fields();
    for tlv in [
        in_structure(&[&needed, &needed[..6]]),
        in_structure(&[&needed, &[0x24, 0x03, 0x42]]),
        in_structure(&[&[0x24, 0x01, 0x05], &needed]),
        in_structure(&[&[0x35, 0x02, 0x18], &needed]),
        in_structure(&[&needed, &[0x30, 0x03, 0x01, 0x42]]),
        in_structure(&[&needed[6..]]),
        in_structure(&[&needed[..6]]),
        in_structure(&[&needed, &[0x35, 0x06]]),
    ] {
        assert!(matches!(
            extract_attestation_elements_fields(&tlv),
            Err(AttestationError::ResponseElementsMalformed)
        ));
    }
}

#[test]
fn absent_basic_constraints_are_a_violation() {
    let mut extensions = dac_extensions();
    extensions.remove(0);
    assert!(matches!(
        verify_attestation_cert_format(&dac_with(extensions), CertRole::Dac),
        Err(AttestationError::BasicConstraintsViolation)
    ));
    // Also where another extension is absent too.
    let mut extensions = pai_extensions();
    extensions.remove(2);
    extensions.remove(0);
    assert!(matches!(
        verify_attestation_cert_format(&pai_with(extensions), CertRole::Pai),
        Err(AttestationError::BasicConstraintsViolation)
    ));
}

#[test]
fn keys_are_uncompressed_points() {
    for (der, key) in [(dac_der(), 3u8), (pai_der(), 2), (paa_der(None), 1)] {
        let point = key_of(key).1;
        let place = der.windows(point.len()).position(|w| w == &point[..]).unwrap();
        let mut other = der.clone();
        other[place] = 0x05;
        let fault = Err(AttestationError::Parse(ParseFault::PublicKey));
        match key {
            3 => {
                assert_eq!(Dac::from_der(&der).unwrap().public_key(), &point[..]);
                assert_eq!(Dac::from_der(&other).map(|_| ()), fault);
            }
            2 => {
                assert_eq!(Pai::from_der(&der).unwrap().public_key(), &point[..]);
                assert_eq!(Pai::from_der(&other).map(|_| ()), fault);
            }
            _ => {
                assert_eq!(Paa::from_der(&der).unwrap().public_key(), &point[..]);
                assert_eq!(Paa::from_der(&other).map(|_| ()), fault);
            }
        }
    }
}
