//! Signatures and digests.

use vstd::prelude::*;

verus! {

/// One more than the longest message that a digest can take: its length in
/// bits has to fit in 64 bits.
pub const DIGEST_INPUT_LIMIT: u64 = 0x2000_0000_0000_0000;

/// Whether `signature`, 32 bytes of `r` and 32 bytes of `s`, is a valid ECDSA
/// signature over the SHA-256 digest of `message` under the P-256 key
/// `public_key`.
pub uninterp spec fn p256_fixed_signature_valid(
    public_key: Seq<u8>,
    message: Seq<u8>,
    signature: Seq<u8>,
) -> bool;

/// Whether `signature`, in DER, is a valid ECDSA signature over the SHA-256
/// digest of `message` under the P-256 key `public_key`.
pub uninterp spec fn p256_der_signature_valid(
    public_key: Seq<u8>,
    message: Seq<u8>,
    signature: Seq<u8>,
) -> bool;

/// The SHA-1 digest of `message`.
pub uninterp spec fn sha1_of(message: Seq<u8>) -> Seq<u8>;

/// Calls `ring::signature::UnparsedPublicKey::verify` with
/// `ECDSA_P256_SHA256_FIXED`. Whether it accepts depends on its three arguments
/// alone; it accepts only keys that are uncompressed points, 65 bytes from
/// `0x04` on, and signatures of 64 bytes. It panics on longer messages than a
/// digest can take.
#[verifier::external_body]
pub(crate) fn verify_p256_fixed(public_key: &[u8], message: &[u8], signature: &[u8]) -> (valid:
    bool)
    requires
        message@.len() < DIGEST_INPUT_LIMIT,
    ensures
        valid == p256_fixed_signature_valid(public_key@, message@, signature@),
        valid ==> public_key@.len() == 65 && public_key@[0] == 4 && signature@.len() == 64,
{
    let key = ring::signature::UnparsedPublicKey::new(
        &ring::signature::ECDSA_P256_SHA256_FIXED,
        public_key,
    );
    key.verify(message, signature).is_ok()
}

/// Calls `ring::signature::UnparsedPublicKey::verify` with
/// `ECDSA_P256_SHA256_ASN1`. Whether it accepts depends on its three arguments
/// alone; it accepts only keys that are uncompressed points, 65 bytes from
/// `0x04` on. It panics on longer messages than a digest can take.
#[verifier::external_body]
pub(crate) fn verify_p256_der(public_key: &[u8], message: &[u8], signature: &[u8]) -> (valid: bool)
    requires
        message@.len() < DIGEST_INPUT_LIMIT,
    ensures
        valid == p256_der_signature_valid(public_key@, message@, signature@),
        valid ==> public_key@.len() == 65 && public_key@[0] == 4,
{
    let key = ring::signature::UnparsedPublicKey::new(
        &ring::signature::ECDSA_P256_SHA256_ASN1,
        public_key,
    );
    key.verify(message, signature).is_ok()
}

/// Calls `ring::digest::digest` with `SHA1_FOR_LEGACY_USE_ONLY`. The digest
/// depends on the message alone and has 20 bytes. It panics on longer messages
/// than a digest can take.
#[verifier::external_body]
pub(crate) fn sha1(message: &[u8]) -> (digest: Vec<u8>)
    requires
        message@.len() < DIGEST_INPUT_LIMIT,
    ensures
        digest@ == sha1_of(message@),
        digest@.len() == 20,
{
    ring::digest::digest(&ring::digest::SHA1_FOR_LEGACY_USE_ONLY, message).as_ref().to_vec()
}

/// A P-256 public key: an uncompressed point.
#[derive(Clone, Copy, Debug, PartialEq, Eq)]
pub struct PublicKey {
    bytes: [u8; 65],
}

impl View for PublicKey {
    type V = Seq<u8>;

    closed spec fn view(&self) -> Seq<u8> {
        self.bytes@
    }
}

impl PublicKey {
    #[verifier::type_invariant]
    spec fn is_uncompressed(self) -> bool {
        self.bytes@[0] == 4
    }

    /// A key from the encoding of an uncompressed point: `0x04` and two
    /// coordinates of 32 bytes.
    pub fn new(bytes: [u8; 65]) -> (key: Option<PublicKey>)
        ensures
            match key {
                Some(k) => bytes@[0] == 4 && k@ == bytes@,
                None => bytes@[0] != 4,
            },
    {
        if bytes[0] == 4 {
            Some(PublicKey { bytes })
        } else {
            None
        }
    }

    /// A key from the encoding of an uncompressed point in a slice.
    pub fn from_slice(bytes: &[u8]) -> (key: Option<PublicKey>)
        ensures
            match key {
                Some(k) => bytes@.len() == 65 && bytes@[0] == 4 && k@ == bytes@,
                None => bytes@.len() != 65 || bytes@[0] != 4,
            },
    {
        if bytes.len() != 65 || bytes[0] != 4 {
            return None;
        }
        let mut a: [u8; 65] = [0;65];
        let mut i: usize = 0;
        while i < 65
            invariant
                i <= 65,
                bytes@.len() == 65,
                forall|j: int| 0 <= j < i ==> a@[j] == bytes@[j],
            decreases 65 - i,
        {
            a[i] = bytes[i];
            i = i + 1;
        }
        proof {
            assert(a@ =~= bytes@);
        }
        Some(PublicKey { bytes: a })
    }

    /// The encoding of the point.
    pub fn as_bytes(&self) -> (bytes: &[u8; 65])
        ensures
            bytes@ == self@,
            bytes@[0] == 4,
    {
        proof {
            use_type_invariant(self);
        }
        &self.bytes
    }
}

} // verus!
