//! The errors of the `noc` module and its source of random bytes.

use crate::text::push_text;
use crate::tlv::TlvError;
use vstd::prelude::*;

verus! {

/// What is wrong with the outer envelope of a node operational CSR.
#[derive(Copy, Clone, Debug, PartialEq, Eq)]
pub enum NocsrFault {
    /// The bytes are no TLV.
    Codec(TlvError),
    /// The envelope is no anonymous structure.
    NotStructure,
    /// The envelope has no end.
    Unclosed,
    /// A field occurs twice.
    Duplicate(&'static str),
    /// The nonce does not have 32 bytes.
    NonceLength,
    /// An octet string stands under a tag that no field has.
    UnknownTag(u8),
    /// Something other than an octet string under a context tag.
    UnexpectedElement,
    /// A required field is absent.
    Missing(&'static str),
}

/// What is wrong with an embedded PKCS#10 request.
#[derive(Copy, Clone, Debug, PartialEq, Eq)]
pub enum CsrFault {
    /// The DER does not parse.
    Der,
    /// Bytes stand behind the request.
    TrailingBytes,
}

/// What keeps a certificate from being described.
#[derive(Copy, Clone, Debug, PartialEq, Eq)]
pub enum CertFault {
    /// A field of the certificate, named by its extension tag, is absent.
    MissingField(u8),
}

/// The errors of the `noc` module.
#[derive(Copy, Clone, Debug, PartialEq, Eq)]
#[non_exhaustive]
pub enum NocError {
    /// The outer envelope of the CSR elements is malformed.
    NocsrParse(NocsrFault),
    /// The embedded PKCS#10 request does not parse.
    CsrParse(CsrFault),
    /// The self-signature of the PKCS#10 request does not verify.
    BadCsrSelfSignature,
    /// The nonce that the device echoed is not the one that it was sent.
    NonceMismatch,
    /// The attestation signature over elements and challenge does not verify.
    BadCsrAttestationSignature,
    /// The public key of the CSR is no uncompressed P-256 point.
    InvalidCsrPublicKey,
    /// A distinguished-name attribute cannot be built from its value.
    DnAttributeOverflow,
    /// A certificate cannot be built.
    CertBuild(CertFault),
    /// The signer of the fabric's root key refused.
    SigningFailed,
    /// The source of random bytes failed.
    Rng,
    /// A response is no TLV.
    ClusterCodec(TlvError),
    /// A response is TLV of the wrong shape.
    MalformedResponse(&'static str),
}

/// A source of random bytes for nonces, serial numbers and keys. Callers supply
/// their own for reproducible runs.
pub trait NocRng: Send + Sync {
    /// Whether the source may answer a request to fill `len` bytes with
    /// `outcome` and leave `bytes` behind. One request may have many answers; a
    /// source that does not say more may give any.
    open spec fn may_answer(
        &self,
        len: nat,
        outcome: Result<(), NocError>,
        bytes: Seq<u8>,
    ) -> bool {
        bytes.len() == len
    }

    /// Fills `dest` with random bytes.
    fn fill(&self, dest: &mut [u8]) -> (r: Result<(), NocError>)
        ensures
            final(dest)@.len() == old(dest)@.len(),
            self.may_answer(old(dest)@.len(), r, final(dest)@),
    ;
}

/// The system's source of random bytes.
#[derive(Debug)]
pub struct SystemNocRng;

impl Default for SystemNocRng {
    fn default() -> (rng: Self)
        ensures
            rng == SystemNocRng,
    {
        SystemNocRng
    }
}

/// Calls `ring::rand::SecureRandom::fill` on `ring::rand::SystemRandom`. The
/// bytes are random and the call may fail; the number of bytes stays.
#[verifier::external_body]
pub(crate) fn system_random_fill(dest: &mut [u8]) -> (filled: bool)
    ensures
        final(dest)@.len() == old(dest)@.len(),
{
    let rng = ring::rand::SystemRandom::new();
    match ring::rand::SecureRandom::fill(&rng, dest) {
        Ok(()) => true,
        Err(_) => false,
    }
}

impl NocRng for SystemNocRng {
    /// Any bytes may come; of a failure no cause is told.
    open spec fn may_answer(
        &self,
        len: nat,
        outcome: Result<(), NocError>,
        bytes: Seq<u8>,
    ) -> bool {
        &&& bytes.len() == len
        &&& outcome matches Err(e) ==> e == NocError::Rng
    }

    fn fill(&self, dest: &mut [u8]) -> (r: Result<(), NocError>) {
        if system_random_fill(dest) {
            Ok(())
        } else {
            Err(NocError::Rng)
        }
    }
}

/// The text for each error.
pub open spec fn noc_error_text(e: NocError) -> Seq<char> {
    match e {
        NocError::NocsrParse(_) => "NOCSR TLV parse failure"@,
        NocError::CsrParse(_) => "embedded PKCS#10 CSR parse failure"@,
        NocError::BadCsrSelfSignature => "CSR self-signature verification failed"@,
        NocError::NonceMismatch => "CSRNonce did not match commissioner-issued value"@,
        NocError::BadCsrAttestationSignature => "DAC attestation signature over NOCSR failed"@,
        NocError::InvalidCsrPublicKey => "CSR public key is not a valid P-256 point"@,
        NocError::DnAttributeOverflow => "Matter DN attribute construction failed"@,
        NocError::CertBuild(_) => "NOC certificate construction failed"@,
        NocError::SigningFailed => "NOC signing failed"@,
        NocError::Rng => "RNG failure"@,
        NocError::ClusterCodec(_) => "OpCreds cluster payload codec error"@,
        NocError::MalformedResponse(what) => {
            "OpCreds cluster response is structurally malformed: "@ + what@
        },
    }
}

impl NocError {
    /// The text for an operator.
    pub fn message(&self) -> (text: String)
        ensures
            text@ == noc_error_text(*self),
    {
        match self {
            NocError::NocsrParse(_) => "NOCSR TLV parse failure".to_owned(),
            NocError::CsrParse(_) => "embedded PKCS#10 CSR parse failure".to_owned(),
            NocError::BadCsrSelfSignature => "CSR self-signature verification failed".to_owned(),
            NocError::NonceMismatch => {
                "CSRNonce did not match commissioner-issued value".to_owned()
            },
            NocError::BadCsrAttestationSignature => {
                "DAC attestation signature over NOCSR failed".to_owned()
            },
            NocError::InvalidCsrPublicKey => {
                "CSR public key is not a valid P-256 point".to_owned()
            },
            NocError::DnAttributeOverflow => "Matter DN attribute construction failed".to_owned(),
            NocError::CertBuild(_) => "NOC certificate construction failed".to_owned(),
            NocError::SigningFailed => "NOC signing failed".to_owned(),
            NocError::Rng => "RNG failure".to_owned(),
            NocError::ClusterCodec(_) => "OpCreds cluster payload codec error".to_owned(),
            NocError::MalformedResponse(what) => {
                let mut text =
                    "OpCreds cluster response is structurally malformed: ".to_owned();
                push_text(&mut text, what);
                text
            },
        }
    }
}

} // verus!
