//! The errors of device attestation.

use crate::attestation::extensions::{MatterDnError, ProductId, VendorId};
use crate::text::{decimal, push_decimal, push_text};
use vstd::prelude::*;

verus! {

/// Why a certificate is refused at parsing.
#[derive(Copy, Clone, Debug, PartialEq, Eq)]
pub enum ParseFault {
    /// The DER is no certificate.
    Der,
    /// A vendor or product identifier of the subject is malformed.
    Dn(MatterDnError),
    /// A required attribute of the subject is absent.
    MissingRequired(&'static str),
    /// The subject has an attribute that it must not have.
    ForbiddenField(&'static str),
    /// The public key is no uncompressed P-256 point.
    PublicKey,
}

/// Why path validation refuses a chain, as far as the library tells reasons
/// apart.
#[derive(Copy, Clone, Debug, PartialEq, Eq)]
pub enum PathFault {
    /// A certificate is past its validity.
    CertExpired,
    /// A certificate is before its validity.
    CertNotValidYet,
    /// A certificate has no sensible validity.
    InvalidCertValidity,
    /// The chain is longer than a certificate in it allows.
    PathLenConstraintViolated,
    /// An end-entity certificate issued another.
    EndEntityUsedAsCa,
    /// The leaf is a CA certificate.
    CaUsedAsEndEntity,
    /// No trust anchor issued the chain.
    UnknownIssuer,
    /// Any other reason.
    Other,
}

/// The errors of device attestation.
#[derive(Copy, Clone, Debug, PartialEq, Eq)]
#[non_exhaustive]
pub enum AttestationError {
    /// A certificate does not parse, or its subject is not what its role
    /// demands.
    Parse(ParseFault),
    /// Path validation refused the chain for a reason without a variant of its
    /// own.
    InvalidChain(PathFault),
    /// A certificate of the chain is outside its validity.
    TimeBoundsViolation,
    /// The basic constraints of a certificate do not fit its role, or the path
    /// is too long.
    BasicConstraintsViolation,
    /// No trusted root issued the chain.
    UntrustedRoot,
    /// The vendors of the device certificate and its issuer differ.
    VidMismatch {
        /// The vendor of the device certificate.
        dac: VendorId,
        /// The vendor of its issuer.
        pai: VendorId,
    },
    /// The issuer is bound to another product than the device certificate.
    PaiVidNotAuthorized,
    /// The root is bound to another vendor than the chain.
    PaaVidScopeMismatch {
        /// The vendor that the root is bound to.
        paa_vid: VendorId,
        /// The vendor of the chain.
        dac_vid: VendorId,
    },
    /// A certificate breaks the profile of attestation certificates.
    CertFormatViolation {
        /// What it breaks.
        reason: &'static str,
    },
    /// The attestation elements are malformed or incomplete.
    ResponseElementsMalformed,
    /// The certification declaration is no signed message of the right shape.
    CertificationDeclarationMalformed,
    /// No trusted key signed the certification declaration.
    CertificationDeclarationSignatureInvalid,
    /// The content of the certification declaration is malformed.
    CertificationDeclarationTlvMalformed,
    /// The certification declaration is for another vendor.
    CertificationDeclarationVidMismatch {
        /// The vendor in the declaration.
        declared: VendorId,
        /// The vendor of the device.
        expected: VendorId,
    },
    /// The certification declaration does not cover the product.
    CertificationDeclarationPidMismatch(ProductId),
    /// The signature of the attestation response does not verify. Nothing tells
    /// which of its inputs is to blame.
    BadResponseSignature,
}

/// The error for a refused path.
pub open spec fn path_error(fault: PathFault) -> AttestationError {
    match fault {
        PathFault::CertExpired | PathFault::CertNotValidYet | PathFault::InvalidCertValidity => {
            AttestationError::TimeBoundsViolation
        },
        PathFault::PathLenConstraintViolated
        | PathFault::EndEntityUsedAsCa
        | PathFault::CaUsedAsEndEntity => AttestationError::BasicConstraintsViolation,
        PathFault::UnknownIssuer => AttestationError::UntrustedRoot,
        PathFault::Other => AttestationError::InvalidChain(PathFault::Other),
    }
}

/// Maps the reason of a refused path to an error.
pub fn map_path_fault(fault: PathFault) -> (e: AttestationError)
    ensures
        e == path_error(fault),
{
    match fault {
        PathFault::CertExpired | PathFault::CertNotValidYet | PathFault::InvalidCertValidity => {
            AttestationError::TimeBoundsViolation
        },
        PathFault::PathLenConstraintViolated
        | PathFault::EndEntityUsedAsCa
        | PathFault::CaUsedAsEndEntity => AttestationError::BasicConstraintsViolation,
        PathFault::UnknownIssuer => AttestationError::UntrustedRoot,
        PathFault::Other => AttestationError::InvalidChain(PathFault::Other),
    }
}

/// A vendor identifier in a message.
pub open spec fn vendor_text(vid: VendorId) -> Seq<char> {
    "VendorId("@ + decimal(vid@ as nat) + ")"@
}

/// A product identifier in a message.
pub open spec fn product_text(pid: ProductId) -> Seq<char> {
    "ProductId("@ + decimal(pid@ as nat) + ")"@
}

fn push_vendor(text: &mut String, vid: VendorId)
    ensures
        final(text)@ == old(text)@ + vendor_text(vid),
{
    push_text(text, "VendorId(");
    push_decimal(text, vid.as_u16() as u64);
    push_text(text, ")");
    proof {
        assert(text@ =~= old(text)@ + vendor_text(vid));
    }
}

fn push_product(text: &mut String, pid: ProductId)
    ensures
        final(text)@ == old(text)@ + product_text(pid),
{
    push_text(text, "ProductId(");
    push_decimal(text, pid.as_u16() as u64);
    push_text(text, ")");
    proof {
        assert(text@ =~= old(text)@ + product_text(pid));
    }
}

/// The text for each error.
pub open spec fn attestation_error_text(e: AttestationError) -> Seq<char> {
    match e {
        AttestationError::Parse(_) => "X.509 parse failure"@,
        AttestationError::InvalidChain(_) => "certificate chain validation failed"@,
        AttestationError::TimeBoundsViolation => "certificate expired or not yet valid"@,
        AttestationError::BasicConstraintsViolation => "BasicConstraints violation"@,
        AttestationError::UntrustedRoot => "PAA not in trust store"@,
        AttestationError::VidMismatch { dac, pai } => {
            "VID mismatch: DAC="@ + vendor_text(dac) + " PAI="@ + vendor_text(pai)
        },
        AttestationError::PaiVidNotAuthorized => "PAI is not authorized for DAC's product"@,
        AttestationError::PaaVidScopeMismatch { paa_vid, dac_vid } => {
            "VID-scoped PAA scope mismatch: PAA="@ + vendor_text(paa_vid) + " DAC/PAI="@
                + vendor_text(dac_vid)
        },
        AttestationError::CertFormatViolation { reason } => {
            "attestation certificate format violation: "@ + reason@
        },
        AttestationError::ResponseElementsMalformed => {
            "attestation_elements malformed or missing required fields"@
        },
        AttestationError::CertificationDeclarationMalformed => {
            "certification declaration has invalid CMS structure"@
        },
        AttestationError::CertificationDeclarationSignatureInvalid => {
            "certification declaration signature does not verify against any trusted root"@
        },
        AttestationError::CertificationDeclarationTlvMalformed => {
            "certification declaration inner TLV malformed"@
        },
        AttestationError::CertificationDeclarationVidMismatch { declared, expected } => {
            "certification declaration VID mismatch: declared "@ + vendor_text(declared)
                + ", expected "@ + vendor_text(expected)
        },
        AttestationError::CertificationDeclarationPidMismatch(pid) => {
            "certification declaration PID list does not contain expected "@ + product_text(pid)
        },
        AttestationError::BadResponseSignature => {
            "AttestationResponse signature verification failed"@
        },
    }
}

impl AttestationError {
    /// The text for an operator.
    pub fn message(&self) -> (text: String)
        ensures
            text@ == attestation_error_text(*self),
    {
        let mut text = String::new();
        match self {
            AttestationError::Parse(_) => push_text(&mut text, "X.509 parse failure"),
            AttestationError::InvalidChain(_) => {
                push_text(&mut text, "certificate chain validation failed");
            },
            AttestationError::TimeBoundsViolation => {
                push_text(&mut text, "certificate expired or not yet valid");
            },
            AttestationError::BasicConstraintsViolation => {
                push_text(&mut text, "BasicConstraints violation");
            },
            AttestationError::UntrustedRoot => push_text(&mut text, "PAA not in trust store"),
            AttestationError::VidMismatch { dac, pai } => {
                push_text(&mut text, "VID mismatch: DAC=");
                push_vendor(&mut text, *dac);
                push_text(&mut text, " PAI=");
                push_vendor(&mut text, *pai);
            },
            AttestationError::PaiVidNotAuthorized => {
                push_text(&mut text, "PAI is not authorized for DAC's product");
            },
            AttestationError::PaaVidScopeMismatch { paa_vid, dac_vid } => {
                push_text(&mut text, "VID-scoped PAA scope mismatch: PAA=");
                push_vendor(&mut text, *paa_vid);
                push_text(&mut text, " DAC/PAI=");
                push_vendor(&mut text, *dac_vid);
            },
            AttestationError::CertFormatViolation { reason } => {
                push_text(&mut text, "attestation certificate format violation: ");
                push_text(&mut text, reason);
            },
            AttestationError::ResponseElementsMalformed => {
                push_text(&mut text, "attestation_elements malformed or missing required fields");
            },
            AttestationError::CertificationDeclarationMalformed => {
                push_text(&mut text, "certification declaration has invalid CMS structure");
            },
            AttestationError::CertificationDeclarationSignatureInvalid => {
                push_text(
                    &mut text,
                    "certification declaration signature does not verify against any trusted root",
                );
            },
            AttestationError::CertificationDeclarationTlvMalformed => {
                push_text(&mut text, "certification declaration inner TLV malformed");
            },
            AttestationError::CertificationDeclarationVidMismatch { declared, expected } => {
                push_text(&mut text, "certification declaration VID mismatch: declared ");
                push_vendor(&mut text, *declared);
                push_text(&mut text, ", expected ");
                push_vendor(&mut text, *expected);
            },
            AttestationError::CertificationDeclarationPidMismatch(pid) => {
                push_text(
                    &mut text,
                    "certification declaration PID list does not contain expected ",
                );
                push_product(&mut text, *pid);
            },
            AttestationError::BadResponseSignature => {
                push_text(&mut text, "AttestationResponse signature verification failed");
            },
        }
        proof {
            assert(text@ =~= attestation_error_text(*self));
        }
        text
    }
}

/// A path that is refused for a time counts as out of its time, one that is
/// refused for what its certificates may issue as a breach of their constraints,
/// one without a known issuer as untrusted, and anything else as invalid.
pub proof fn law_path_errors(fault: PathFault)
    ensures
        path_error(fault) is TimeBoundsViolation <==> fault is CertExpired
            || fault is CertNotValidYet || fault is InvalidCertValidity,
        path_error(fault) is BasicConstraintsViolation <==> fault is PathLenConstraintViolated
            || fault is EndEntityUsedAsCa || fault is CaUsedAsEndEntity,
        path_error(fault) is UntrustedRoot <==> fault is UnknownIssuer,
        path_error(fault) is InvalidChain <==> fault is Other,
{
}

/// The texts with two vendors name each in its place: that of the device before
/// that of its issuer, that of the root before that of the device, the declared one
/// before the expected one.
pub proof fn law_texts_name_vendors(a: VendorId, b: VendorId)
    ensures
        attestation_error_text(AttestationError::VidMismatch { dac: a, pai: b })
            == "VID mismatch: DAC=VendorId("@ + decimal(a@ as nat) + ") PAI=VendorId("@ + decimal(
            b@ as nat,
        ) + ")"@,
        attestation_error_text(AttestationError::PaaVidScopeMismatch { paa_vid: a, dac_vid: b })
            == "VID-scoped PAA scope mismatch: PAA=VendorId("@ + decimal(a@ as nat)
            + ") DAC/PAI=VendorId("@ + decimal(b@ as nat) + ")"@,
        attestation_error_text(
            AttestationError::CertificationDeclarationVidMismatch { declared: a, expected: b },
        ) == "certification declaration VID mismatch: declared VendorId("@ + decimal(a@ as nat)
            + "), expected VendorId("@ + decimal(b@ as nat) + ")"@,
{
    reveal_strlit("VID mismatch: DAC=VendorId(");
    reveal_strlit("VID mismatch: DAC=");
    reveal_strlit("VendorId(");
    reveal_strlit(") PAI=VendorId(");
    reveal_strlit(" PAI=");
    reveal_strlit(")");
    reveal_strlit("VID-scoped PAA scope mismatch: PAA=VendorId(");
    reveal_strlit("VID-scoped PAA scope mismatch: PAA=");
    reveal_strlit(") DAC/PAI=VendorId(");
    reveal_strlit(" DAC/PAI=");
    reveal_strlit("certification declaration VID mismatch: declared VendorId(");
    reveal_strlit("certification declaration VID mismatch: declared ");
    reveal_strlit("), expected VendorId(");
    reveal_strlit(", expected ");
    let x = decimal(a@ as nat);
    let y = decimal(b@ as nat);
    assert("VID mismatch: DAC=VendorId("@ =~= "VID mismatch: DAC="@ + "VendorId("@);
    assert(") PAI=VendorId("@ =~= ")"@ + " PAI="@ + "VendorId("@);
    assert(attestation_error_text(AttestationError::VidMismatch { dac: a, pai: b })
        =~= "VID mismatch: DAC=VendorId("@ + x + ") PAI=VendorId("@ + y + ")"@);
    assert("VID-scoped PAA scope mismatch: PAA=VendorId("@
        =~= "VID-scoped PAA scope mismatch: PAA="@ + "VendorId("@);
    assert(") DAC/PAI=VendorId("@ =~= ")"@ + " DAC/PAI="@ + "VendorId("@);
    assert(attestation_error_text(
        AttestationError::PaaVidScopeMismatch { paa_vid: a, dac_vid: b },
    ) =~= "VID-scoped PAA scope mismatch: PAA=VendorId("@ + x + ") DAC/PAI=VendorId("@ + y + ")"@);
    assert("certification declaration VID mismatch: declared VendorId("@
        =~= "certification declaration VID mismatch: declared "@ + "VendorId("@);
    assert("), expected VendorId("@ =~= ")"@ + ", expected "@ + "VendorId("@);
    assert(attestation_error_text(
        AttestationError::CertificationDeclarationVidMismatch { declared: a, expected: b },
    ) =~= "certification declaration VID mismatch: declared VendorId("@ + x
        + "), expected VendorId("@ + y + ")"@);
}

} // verus!
