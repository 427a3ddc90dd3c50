//! The profile that attestation certificates have to keep: version, signature
//! algorithm, and which extensions they carry with what contents.

use crate::attestation::error::{AttestationError, ParseFault};
use crate::attestation::extensions::same_bytes;
use crate::attestation::x509::{
    extensions_view, parse_certificate, parse_extensions, x509_certificate, x509_extensions,
    CertExtension, CertificateParts, CertificateView, ExtensionView,
};
use crate::tlv::members::{first_fault, lemma_first_fault_prefix};
use vstd::prelude::*;

verus! {

/// The encoding of `1.2.840.10045.4.3.2`, ECDSA with SHA-256.
pub const OID_ECDSA_WITH_SHA256: [u8; 8] = [0x2A, 0x86, 0x48, 0xCE, 0x3D, 0x04, 0x03, 0x02];

/// The number that stands for version 3 of a certificate.
pub const VERSION_3: u32 = 2;

/// The length of a key identifier.
pub const KEY_ID_LEN: usize = 20;

/// The key may sign data.
pub const KU_DIGITAL_SIGNATURE: u16 = 0x01;

/// The key may sign certificates.
pub const KU_KEY_CERT_SIGN: u16 = 0x20;

/// The key may sign revocation lists.
pub const KU_CRL_SIGN: u16 = 0x40;

/// The place of a certificate in an attestation chain.
#[derive(Debug, Clone, Copy, PartialEq, Eq, Structural)]
pub enum CertRole {
    /// The device's own certificate.
    Dac,
    /// The certificate that issued it.
    Pai,
    /// The root.
    Paa,
}

/// Whether the basic constraints fit the role: the leaf is no CA, the
/// intermediate may issue leaves only, the root one level of intermediates at
/// most.
pub open spec fn basic_constraints_fit(role: CertRole, ca: bool, path_len: Option<u32>) -> bool {
    match role {
        CertRole::Dac => !ca && path_len is None,
        CertRole::Pai => ca && path_len == Some(0u32),
        CertRole::Paa => ca && (path_len is None || path_len == Some(1u32)),
    }
}

/// Whether the uses of the key fit the role: a leaf signs data and nothing
/// else, a CA signs certificates and revocation lists and possibly data.
pub open spec fn key_usage_fits(role: CertRole, flags: u16) -> bool {
    match role {
        CertRole::Dac => flags == KU_DIGITAL_SIGNATURE,
        _ => flags == KU_KEY_CERT_SIGN + KU_CRL_SIGN || flags == KU_DIGITAL_SIGNATURE
            + KU_KEY_CERT_SIGN + KU_CRL_SIGN,
    }
}

/// The error for a breach of the profile.
pub open spec fn breach(reason: &'static str) -> AttestationError {
    AttestationError::CertFormatViolation { reason }
}

/// Whether there are basic constraints.
pub open spec fn has_basic(extensions: Seq<ExtensionView>) -> bool {
    exists|i: int| 0 <= i < extensions.len() && #[trigger] extensions[i] is BasicConstraints
}

/// Whether there is a key usage.
pub open spec fn has_key_usage(extensions: Seq<ExtensionView>) -> bool {
    exists|i: int| 0 <= i < extensions.len() && #[trigger] extensions[i] is KeyUsage
}

/// Whether there is an identifier of the subject's key.
pub open spec fn has_skid(extensions: Seq<ExtensionView>) -> bool {
    exists|i: int| 0 <= i < extensions.len() && #[trigger] extensions[i] is SubjectKeyIdentifier
}

/// Whether there is an identifier of the issuer's key.
pub open spec fn has_akid(extensions: Seq<ExtensionView>) -> bool {
    exists|i: int| 0 <= i < extensions.len() && #[trigger] extensions[i] is AuthorityKeyIdentifier
}

/// The objection against an extension, given those before it. Basic
/// constraints and key usage are critical, key identifiers are not; none of
/// the four occurs twice.
pub open spec fn extension_rule(
    role: CertRole,
    before: Seq<ExtensionView>,
    extension: ExtensionView,
) -> Option<AttestationError> {
    match extension {
        ExtensionView::BasicConstraints { critical, ca, path_len } => {
            if has_basic(before) || !critical || !basic_constraints_fit(role, ca, path_len) {
                Some(AttestationError::BasicConstraintsViolation)
            } else {
                None
            }
        },
        ExtensionView::KeyUsage { critical, flags } => {
            if has_key_usage(before) || !critical {
                Some(breach("KeyUsage absent, non-critical, or duplicated"))
            } else if !key_usage_fits(role, flags) {
                Some(breach("KeyUsage bits are wrong for the certificate role"))
            } else {
                None
            }
        },
        ExtensionView::SubjectKeyIdentifier { critical, key_id } => {
            if has_skid(before) || critical {
                Some(breach("SubjectKeyIdentifier duplicated or critical"))
            } else if key_id.len() != KEY_ID_LEN {
                Some(breach("SubjectKeyIdentifier is not 20 bytes"))
            } else {
                None
            }
        },
        ExtensionView::AuthorityKeyIdentifier { critical, key_id } => {
            if has_akid(before) || critical {
                Some(breach("AuthorityKeyIdentifier duplicated or critical"))
            } else if key_id matches Some(k) && k.len() == KEY_ID_LEN {
                None
            } else {
                Some(breach("AuthorityKeyIdentifier keyIdentifier absent or not 20 bytes"))
            }
        },
        ExtensionView::Other => None,
    }
}

/// The objection against the extensions of a certificate: the first one against
/// any of them, and then that a mandatory one is absent.
pub open spec fn extensions_fault(
    role: CertRole,
    extensions: Seq<ExtensionView>,
) -> Option<AttestationError> {
    match first_fault(
        extensions,
        |before: Seq<ExtensionView>, e: ExtensionView| extension_rule(role, before, e),
    ) {
        Some(e) => Some(e),
        None => if !has_basic(extensions) {
            Some(AttestationError::BasicConstraintsViolation)
        } else if !(has_key_usage(extensions) && has_skid(extensions)) {
            Some(
                breach(
                    "missing a mandatory extension (BasicConstraints / KeyUsage / SubjectKeyIdentifier)",
                ),
            )
        } else if role != CertRole::Paa && !has_akid(extensions) {
            Some(breach("DAC/PAI missing the mandatory AuthorityKeyIdentifier"))
        } else {
            None
        },
    }
}

/// The objection against a certificate with the given parts and extensions.
pub open spec fn format_fault(
    role: CertRole,
    parts: CertificateView,
    extensions: Seq<ExtensionView>,
) -> Option<AttestationError> {
    if parts.version != VERSION_3 {
        Some(breach("certificate is not X.509 v3"))
    } else if parts.signature_algorithm != OID_ECDSA_WITH_SHA256@ {
        Some(breach("signature algorithm is not ecdsa-with-SHA256"))
    } else {
        extensions_fault(role, extensions)
    }
}

fn fits_basic(role: CertRole, ca: bool, path_len: Option<u32>) -> (fits: bool)
    ensures
        fits == basic_constraints_fit(role, ca, path_len),
{
    match role {
        CertRole::Dac => !ca && path_len.is_none(),
        CertRole::Pai => ca && match path_len {
            Some(n) => n == 0,
            None => false,
        },
        CertRole::Paa => ca && match path_len {
            Some(n) => n == 1,
            None => true,
        },
    }
}

fn fits_key_usage(role: CertRole, flags: u16) -> (fits: bool)
    ensures
        fits == key_usage_fits(role, flags),
{
    let signs_certs: u16 = flags & KU_KEY_CERT_SIGN;
    let signs_lists: u16 = flags & KU_CRL_SIGN;
    let others: u16 = flags & !(KU_DIGITAL_SIGNATURE | KU_KEY_CERT_SIGN | KU_CRL_SIGN);
    assert((flags & 0x20u16 != 0 && flags & 0x40u16 != 0 && flags & !(0x01u16 | 0x20u16 | 0x40u16)
        == 0) == (flags == 0x60u16 || flags == 0x61u16)) by (bit_vector);
    match role {
        CertRole::Dac => flags == KU_DIGITAL_SIGNATURE,
        _ => signs_certs != 0 && signs_lists != 0 && others == 0,
    }
}

/// Checks the extensions of a certificate against the profile of its role.
pub fn check_extensions(role: CertRole, extensions: &Vec<CertExtension>) -> (r: Result<
    (),
    AttestationError,
>)
    ensures
        match extensions_fault(role, extensions_view(extensions@)) {
            Some(e) => r == Err::<(), AttestationError>(e),
            None => r == Ok::<(), AttestationError>(()),
        },
{
    let ghost view = extensions_view(extensions@);
    let ghost rule = |before: Seq<ExtensionView>, e: ExtensionView| extension_rule(role, before, e);
    let mut basic = false;
    let mut key_usage = false;
    let mut skid = false;
    let mut akid = false;
    let mut i: usize = 0;
    while i < extensions.len()
        invariant
            i <= extensions@.len(),
            view == extensions_view(extensions@),
            rule == (|before: Seq<ExtensionView>, e: ExtensionView|
                extension_rule(role, before, e)),
            first_fault(view.take(i as int), rule) is None,
            basic == has_basic(view.take(i as int)),
            key_usage == has_key_usage(view.take(i as int)),
            skid == has_skid(view.take(i as int)),
            akid == has_akid(view.take(i as int)),
        decreases extensions@.len() - i,
    {
        let ghost here = view.take(i as int);
        let ghost next = view.take(i + 1);
        proof {
            assert(next.drop_last() =~= here);
            assert(next.last() == extensions@[i as int]@);
            assert(next =~= here.push(next.last()));
            if first_fault(next, rule) is Some {
                lemma_first_fault_prefix(view, i + 1, rule);
            }
            lemma_has_push(here, next.last());
        }
        match &extensions[i] {
            CertExtension::BasicConstraints { critical, ca, path_len } => {
                if basic || !*critical || !fits_basic(role, *ca, *path_len) {
                    return Err(AttestationError::BasicConstraintsViolation);
                }
                basic = true;
            },
            CertExtension::KeyUsage { critical, flags } => {
                if key_usage || !*critical {
                    return Err(
                        AttestationError::CertFormatViolation {
                            reason: "KeyUsage absent, non-critical, or duplicated",
                        },
                    );
                }
                if !fits_key_usage(role, *flags) {
                    return Err(
                        AttestationError::CertFormatViolation {
                            reason: "KeyUsage bits are wrong for the certificate role",
                        },
                    );
                }
                key_usage = true;
            },
            CertExtension::SubjectKeyIdentifier { critical, key_id } => {
                if skid || *critical {
                    return Err(
                        AttestationError::CertFormatViolation {
                            reason: "SubjectKeyIdentifier duplicated or critical",
                        },
                    );
                }
                if key_id.len() != KEY_ID_LEN {
                    return Err(
                        AttestationError::CertFormatViolation {
                            reason: "SubjectKeyIdentifier is not 20 bytes",
                        },
                    );
                }
                skid = true;
            },
            CertExtension::AuthorityKeyIdentifier { critical, key_id } => {
                if akid || *critical {
                    return Err(
                        AttestationError::CertFormatViolation {
                            reason: "AuthorityKeyIdentifier duplicated or critical",
                        },
                    );
                }
                let well_sized = match key_id {
                    Some(k) => k.len() == KEY_ID_LEN,
                    None => false,
                };
                if !well_sized {
                    return Err(
                        AttestationError::CertFormatViolation {
                            reason: "AuthorityKeyIdentifier keyIdentifier absent or not 20 bytes",
                        },
                    );
                }
                akid = true;
            },
            CertExtension::Other => {},
        }
        i = i + 1;
    }
    proof {
        assert(view.take(i as int) =~= view);
    }
    if !basic {
        return Err(AttestationError::BasicConstraintsViolation);
    }
    if !(key_usage && skid) {
        return Err(
            AttestationError::CertFormatViolation {
                reason:
                    "missing a mandatory extension (BasicConstraints / KeyUsage / SubjectKeyIdentifier)",
            },
        );
    }
    if role != CertRole::Paa && !akid {
        return Err(
            AttestationError::CertFormatViolation {
                reason: "DAC/PAI missing the mandatory AuthorityKeyIdentifier",
            },
        );
    }
    Ok(())
}

/// What one more extension adds to the kinds that are there.
proof fn lemma_has_push(here: Seq<ExtensionView>, e: ExtensionView)
    ensures
        has_basic(here.push(e)) == (has_basic(here) || e is BasicConstraints),
        has_key_usage(here.push(e)) == (has_key_usage(here) || e is KeyUsage),
        has_skid(here.push(e)) == (has_skid(here) || e is SubjectKeyIdentifier),
        has_akid(here.push(e)) == (has_akid(here) || e is AuthorityKeyIdentifier),
{
    let next = here.push(e);
    assert(next[here.len() as int] == e);
    assert forall|i: int| 0 <= i < here.len() implies #[trigger] here[i] == next[i] by {}
    if has_basic(here) {
        let i = choose|i: int| 0 <= i < here.len() && #[trigger] here[i] is BasicConstraints;
        assert(next[i] is BasicConstraints);
    }
    if has_key_usage(here) {
        let i = choose|i: int| 0 <= i < here.len() && #[trigger] here[i] is KeyUsage;
        assert(next[i] is KeyUsage);
    }
    if has_skid(here) {
        let i = choose|i: int| 0 <= i < here.len() && #[trigger] here[i] is SubjectKeyIdentifier;
        assert(next[i] is SubjectKeyIdentifier);
    }
    if has_akid(here) {
        let i = choose|i: int| 0 <= i < here.len() && #[trigger] here[i] is AuthorityKeyIdentifier;
        assert(next[i] is AuthorityKeyIdentifier);
    }
}

/// Checks the parts and extensions of a certificate against the profile of its
/// role.
pub fn check_format(
    role: CertRole,
    parts: &CertificateParts,
    extensions: &Vec<CertExtension>,
) -> (r: Result<(), AttestationError>)
    ensures
        match format_fault(role, parts@, extensions_view(extensions@)) {
            Some(e) => r == Err::<(), AttestationError>(e),
            None => r == Ok::<(), AttestationError>(()),
        },
{
    if parts.version != VERSION_3 {
        return Err(
            AttestationError::CertFormatViolation { reason: "certificate is not X.509 v3" },
        );
    }
    if !same_bytes(parts.signature_algorithm.as_slice(), OID_ECDSA_WITH_SHA256.as_slice()) {
        return Err(
            AttestationError::CertFormatViolation {
                reason: "signature algorithm is not ecdsa-with-SHA256",
            },
        );
    }
    check_extensions(role, extensions)
}

/// The objection against a certificate in DER.
pub open spec fn certificate_fault(der: Seq<u8>, role: CertRole) -> Option<AttestationError> {
    match (x509_certificate(der), x509_extensions(der)) {
        (Some(parts), Some(extensions)) => format_fault(role, parts, extensions),
        _ => Some(AttestationError::Parse(ParseFault::Der)),
    }
}

/// Checks a certificate against the profile of its role.
pub fn verify_attestation_cert_format(der: &[u8], role: CertRole) -> (r: Result<
    (),
    AttestationError,
>)
    ensures
        match (x509_certificate(der@), x509_extensions(der@)) {
            (Some(parts), Some(extensions)) => match format_fault(role, parts, extensions) {
                Some(e) => r == Err::<(), AttestationError>(e),
                None => r == Ok::<(), AttestationError>(()),
            },
            _ => r == Err::<(), AttestationError>(AttestationError::Parse(ParseFault::Der)),
        },
        match certificate_fault(der@, role) {
            Some(e) => r == Err::<(), AttestationError>(e),
            None => r == Ok::<(), AttestationError>(()),
        },
{
    match parse_certificate(der) {
        None => Err(AttestationError::Parse(ParseFault::Der)),
        Some(parts) => match parse_extensions(der) {
            None => Err(AttestationError::Parse(ParseFault::Der)),
            Some(extensions) => check_format(role, &parts, &extensions),
        },
    }
}

/// No certificate keeps the profile of a leaf and of a CA: one that passes as a
/// device certificate passes in no other role.
pub proof fn law_roles_disjoint(
    parts: CertificateView,
    extensions: Seq<ExtensionView>,
    role: CertRole,
)
    requires
        format_fault(CertRole::Dac, parts, extensions) is None,
        role != CertRole::Dac,
    ensures
        format_fault(role, parts, extensions) is Some,
{
    let i = choose|i: int|
        0 <= i < extensions.len() && #[trigger] extensions[i] is BasicConstraints;
    let dac = |before: Seq<ExtensionView>, e: ExtensionView| extension_rule(CertRole::Dac, before, e);
    let other = |before: Seq<ExtensionView>, e: ExtensionView| extension_rule(role, before, e);
    lemma_fault_at(extensions, i, dac);
    if first_fault(extensions, other) is None {
        lemma_fault_at(extensions, i, other);
    }
}

/// Where there is no objection, there is none against any member.
proof fn lemma_fault_at<E>(
    members: Seq<ExtensionView>,
    i: int,
    rule: spec_fn(Seq<ExtensionView>, ExtensionView) -> Option<E>,
)
    requires
        0 <= i < members.len(),
        first_fault(members, rule) is None,
    ensures
        rule(members.take(i), members[i]) is None,
    decreases members.len(),
{
    if i == members.len() - 1 {
        assert(members.take(i) =~= members.drop_last());
    } else {
        lemma_fault_at(members.drop_last(), i, rule);
        assert(members.drop_last().take(i) =~= members.take(i));
    }
}

/// What an extension has to be: basic constraints and key usage critical, key
/// identifiers not critical and of 20 bytes, none of them behind another of its
/// kind. The leaf is no CA and its key signs data (bit 0); the intermediate is a
/// CA for leaves only, the root one for at most one intermediate, and their keys
/// sign certificates and revocation lists (bits 5 and 6) and possibly data.
pub proof fn law_extension_rules(
    role: CertRole,
    before: Seq<ExtensionView>,
    extension: ExtensionView,
)
    ensures
        extension_rule(role, before, extension) is None <==> match extension {
            ExtensionView::BasicConstraints { critical, ca, path_len } => {
                &&& critical
                &&& forall|i: int|
                    0 <= i < before.len() ==> !(#[trigger] before[i] is BasicConstraints)
                &&& role == CertRole::Dac ==> !ca && path_len is None
                &&& role == CertRole::Pai ==> ca && path_len == Some(0u32)
                &&& role == CertRole::Paa ==> ca && (path_len matches Some(n) ==> n == 1)
            },
            ExtensionView::KeyUsage { critical, flags } => {
                &&& critical
                &&& forall|i: int| 0 <= i < before.len() ==> !(#[trigger] before[i] is KeyUsage)
                &&& role == CertRole::Dac ==> flags == 0x01
                &&& role != CertRole::Dac ==> flags == 0x60 || flags == 0x61
            },
            ExtensionView::SubjectKeyIdentifier { critical, key_id } => {
                &&& !critical
                &&& forall|i: int|
                    0 <= i < before.len() ==> !(#[trigger] before[i] is SubjectKeyIdentifier)
                &&& key_id.len() == 20
            },
            ExtensionView::AuthorityKeyIdentifier { critical, key_id } => {
                &&& !critical
                &&& forall|i: int|
                    0 <= i < before.len() ==> !(#[trigger] before[i] is AuthorityKeyIdentifier)
                &&& key_id is Some
                &&& key_id->Some_0.len() == 20
            },
            ExtensionView::Other => true,
        },
{
}

/// A certificate that keeps the profile of its role is of version 3, signed with
/// ECDSA on SHA-256, has basic constraints, a key usage and an identifier of its
/// key, and, unless it is a root, one of its issuer's key; each of them is what
/// the role asks for.
pub proof fn law_profile_is_kept(
    role: CertRole,
    parts: CertificateView,
    extensions: Seq<ExtensionView>,
)
    requires
        format_fault(role, parts, extensions) is None,
    ensures
        parts.version == 2,
        parts.signature_algorithm == seq![0x2Au8, 0x86, 0x48, 0xCE, 0x3D, 0x04, 0x03, 0x02],
        exists|i: int| 0 <= i < extensions.len() && #[trigger] extensions[i] is BasicConstraints,
        exists|i: int| 0 <= i < extensions.len() && #[trigger] extensions[i] is KeyUsage,
        exists|i: int|
            0 <= i < extensions.len() && #[trigger] extensions[i] is SubjectKeyIdentifier,
        role != CertRole::Paa ==> exists|i: int|
            0 <= i < extensions.len() && #[trigger] extensions[i] is AuthorityKeyIdentifier,
        forall|i: int|
            #![trigger extensions[i]]
            0 <= i < extensions.len() ==> extension_rule(
                role,
                extensions.take(i),
                extensions[i],
            ) is None,
{
    assert(OID_ECDSA_WITH_SHA256@ =~= seq![
        0x2Au8,
        0x86,
        0x48,
        0xCE,
        0x3D,
        0x04,
        0x03,
        0x02,
    ]);
    let rule = |before: Seq<ExtensionView>, e: ExtensionView| extension_rule(role, before, e);
    assert forall|i: int|
        #![trigger extensions[i]]
        0 <= i < extensions.len() implies extension_rule(
        role,
        extensions.take(i),
        extensions[i],
    ) is None by {
        lemma_fault_at(extensions, i, rule);
    }
}

/// A certificate of version 3, signed with ECDSA on SHA-256, with the extensions
/// that its role asks for and none that breaks a rule, is accepted.
pub proof fn law_profile_is_enough(
    role: CertRole,
    parts: CertificateView,
    extensions: Seq<ExtensionView>,
)
    requires
        parts.version == 2,
        parts.signature_algorithm == seq![0x2Au8, 0x86, 0x48, 0xCE, 0x3D, 0x04, 0x03, 0x02],
        exists|i: int| 0 <= i < extensions.len() && #[trigger] extensions[i] is BasicConstraints,
        exists|i: int| 0 <= i < extensions.len() && #[trigger] extensions[i] is KeyUsage,
        exists|i: int|
            0 <= i < extensions.len() && #[trigger] extensions[i] is SubjectKeyIdentifier,
        role != CertRole::Paa ==> exists|i: int|
            0 <= i < extensions.len() && #[trigger] extensions[i] is AuthorityKeyIdentifier,
        forall|i: int|
            #![trigger extensions[i]]
            0 <= i < extensions.len() ==> extension_rule(
                role,
                extensions.take(i),
                extensions[i],
            ) is None,
    ensures
        format_fault(role, parts, extensions) is None,
{
    assert(OID_ECDSA_WITH_SHA256@ =~= seq![
        0x2Au8,
        0x86,
        0x48,
        0xCE,
        0x3D,
        0x04,
        0x03,
        0x02,
    ]);
    lemma_no_fault(role, extensions);
}

/// Where there is no objection against any extension, there is none at all.
proof fn lemma_no_fault(role: CertRole, extensions: Seq<ExtensionView>)
    requires
        forall|i: int|
            #![trigger extensions[i]]
            0 <= i < extensions.len() ==> extension_rule(
                role,
                extensions.take(i),
                extensions[i],
            ) is None,
    ensures
        first_fault(
            extensions,
            |before: Seq<ExtensionView>, e: ExtensionView| extension_rule(role, before, e),
        ) is None,
    decreases extensions.len(),
{
    if extensions.len() > 0 {
        let before = extensions.drop_last();
        assert forall|i: int|
            #![trigger before[i]]
            0 <= i < before.len() implies extension_rule(
            role,
            before.take(i),
            before[i],
        ) is None by {
            assert(before.take(i) =~= extensions.take(i));
            assert(before[i] == extensions[i]);
        }
        lemma_no_fault(role, before);
        assert(extensions.take(extensions.len() - 1) =~= before);
        assert(extensions.last() == extensions[extensions.len() - 1]);
    }
}

/// A certificate passes only if it is one and its parts and extensions keep the
/// profile of the role that it is checked for.
pub proof fn law_certificate_passes(der: Seq<u8>, role: CertRole)
    ensures
        certificate_fault(der, role) is None <==> (x509_certificate(der) matches Some(parts) && (
        x509_extensions(der) matches Some(extensions) && format_fault(
            role,
            parts,
            extensions,
        ) is None)),
        x509_certificate(der) is None ==> certificate_fault(der, role) == Some(
            AttestationError::Parse(ParseFault::Der),
        ),
{
}

} // verus!
