//! A fabric: its root key, its root certificate and its identity protection
//! key.

use crate::attestation::profile::{KU_CRL_SIGN, KU_KEY_CERT_SIGN};
use crate::crypto::{sha1, sha1_of, PublicKey};
use crate::noc::csr::VerifiedCsr;
use crate::noc::error::{NocError, NocRng};
use crate::noc::issuer::{draw_serial, is_serial, issue_noc_from, may_draw, NocParams};
use vstd::prelude::*;
use vstd::slice::slice_subrange;

verus! {

/// The identifier of a key: the SHA-1 digest of its two coordinates.
pub open spec fn key_id_of(public_key: Seq<u8>) -> Seq<u8> {
    sha1_of(public_key.skip(1))
}

/// The identifier of a key.
pub fn key_identifier(public_key: &PublicKey) -> (id: Vec<u8>)
    ensures
        id@ == key_id_of(public_key@),
        id@.len() == 20,
{
    let bytes = public_key.as_bytes().as_slice();
    let coordinates = slice_subrange(bytes, 1, bytes.len());
    proof {
        assert(coordinates@ =~= public_key@.skip(1));
    }
    sha1(coordinates)
}

/// What a root certificate is made of. Issuer and subject are the same name.
#[derive(Debug, Clone)]
pub struct RcacParams {
    /// The serial number.
    pub serial: Vec<u8>,
    /// The identifier in the name.
    pub rcac_id: u64,
    /// The start of the validity, in seconds since 2000.
    pub not_before: u32,
    /// The end of the validity, in seconds since 2000.
    pub not_after: u32,
    /// The key of the root.
    pub public_key: PublicKey,
    /// Whether the subject is a CA.
    pub is_ca: bool,
    /// How many intermediate certificates may follow.
    pub path_len_constraint: Option<u8>,
    /// What the key may be used for.
    pub key_usage: u16,
    /// The identifier of the subject's key.
    pub subject_key_identifier: Vec<u8>,
    /// The identifier of the issuer's key.
    pub authority_key_identifier: Vec<u8>,
}

/// A root certificate is made after the rules: a CA for one level of
/// intermediates whose key signs certificates and revocation lists, and which
/// names its own key as that of its issuer.
pub open spec fn is_rcac(
    p: RcacParams,
    public_key: Seq<u8>,
    not_before: u32,
    not_after: u32,
    rcac_id: u64,
) -> bool {
    &&& p.rcac_id == rcac_id
    &&& p.not_before == not_before
    &&& p.not_after == not_after
    &&& p.public_key@ == public_key
    &&& p.is_ca
    &&& p.path_len_constraint == Some(1u8)
    &&& p.key_usage == KU_KEY_CERT_SIGN + KU_CRL_SIGN
    &&& p.subject_key_identifier@ == key_id_of(public_key)
    &&& p.authority_key_identifier@ == key_id_of(public_key)
}

/// Describes the root certificate with the given serial number.
pub fn rcac_params_with(
    root_public_key: &PublicKey,
    not_before: u32,
    not_after: u32,
    rcac_id: u64,
    serial: Vec<u8>,
) -> (params: RcacParams)
    ensures
        is_rcac(params, root_public_key@, not_before, not_after, rcac_id),
        params.serial@ == serial@,
        params.rcac_id == rcac_id,
        params.not_before == not_before,
        params.not_after == not_after,
        params.public_key@ == root_public_key@,
{
    RcacParams {
        serial,
        rcac_id,
        not_before,
        not_after,
        public_key: *root_public_key,
        is_ca: true,
        path_len_constraint: Some(1),
        key_usage: KU_KEY_CERT_SIGN + KU_CRL_SIGN,
        subject_key_identifier: key_identifier(root_public_key),
        authority_key_identifier: key_identifier(root_public_key),
    }
}

/// Describes a root certificate with a random serial number. It fails exactly
/// where no serial number can be drawn, with the error of the drawing.
pub fn rcac_params(
    root_public_key: &PublicKey,
    not_before: u32,
    not_after: u32,
    rcac_id: u64,
    rng: &dyn NocRng,
) -> (r: Result<RcacParams, NocError>)
    ensures
        may_draw(
            rng,
            match r {
                Ok(params) => Ok(params.serial@),
                Err(e) => Err(e),
            },
        ),
        r matches Ok(params) ==> is_rcac(
            params,
            root_public_key@,
            not_before,
            not_after,
            rcac_id,
        ) && is_serial(params.serial@),
        r matches Ok(params) ==> {
            &&& params.rcac_id == rcac_id
            &&& params.not_before == not_before
            &&& params.not_after == not_after
            &&& params.public_key@ == root_public_key@
        },
{
    match draw_serial(rng) {
        Err(e) => Err(e),
        Ok(serial) => Ok(
            rcac_params_with(root_public_key, not_before, not_after, rcac_id, serial),
        ),
    }
}

/// What a root certificate says of itself.
#[derive(Debug, Clone)]
pub struct RootCertificate {
    /// The identifier in its name.
    pub rcac_id: u64,
    /// The identifier of its key.
    pub subject_key_identifier: Option<Vec<u8>>,
}

/// A fabric.
#[derive(Clone)]
pub struct FabricRecord {
    /// The number of the fabric.
    pub fabric_id: u64,
    /// The key of the root.
    pub root_public_key: PublicKey,
    /// The root certificate.
    pub root_cert: RootCertificate,
    /// The identity protection key.
    pub identity_protection_key: [u8; 16],
}

/// Whether a fabric is the one with the given number and root.
pub open spec fn is_rooted(fabric: FabricRecord, fabric_id: u64, root: RcacParams) -> bool {
    &&& fabric.fabric_id == fabric_id
    &&& fabric.root_public_key@ == root.public_key@
    &&& fabric.root_cert.rcac_id == root.rcac_id
    &&& fabric.root_cert.subject_key_identifier matches Some(id)
    &&& id@ == root.subject_key_identifier@
}

impl FabricRecord {
    /// A fabric whose certificates the root issues itself, with the given
    /// identity protection key.
    pub fn with_key(fabric_id: u64, root: &RcacParams, identity_protection_key: [u8; 16]) -> (fabric:
        Self)
        ensures
            is_rooted(fabric, fabric_id, *root),
            fabric.identity_protection_key == identity_protection_key,
    {
        FabricRecord {
            fabric_id,
            root_public_key: root.public_key,
            root_cert: RootCertificate {
                rcac_id: root.rcac_id,
                subject_key_identifier: Some(
                    vstd::slice::slice_to_vec(root.subject_key_identifier.as_slice()),
                ),
            },
            identity_protection_key,
        }
    }

    /// A fabric whose certificates the root issues itself, with a random
    /// identity protection key. The root certificate is signed before. It fails
    /// exactly where the source of random bytes fails, with the error of the
    /// source.
    pub fn new_root_only(fabric_id: u64, root: &RcacParams, rng: &dyn NocRng) -> (r: Result<
        Self,
        NocError,
    >)
        ensures
            exists|outcome: Result<(), NocError>, key: Seq<u8>|
                {
                    &&& #[trigger] rng.may_answer(16, outcome, key)
                    &&& match outcome {
                        Ok(_) => r matches Ok(fabric) && fabric.identity_protection_key@ == key,
                        Err(e) => r == Err::<Self, NocError>(e),
                    }
                },
            r matches Ok(fabric) ==> is_rooted(fabric, fabric_id, *root),
    {
        let mut key: [u8; 16] = [0; 16];
        let outcome = rng.fill(&mut key);
        proof {
            assert(rng.may_answer(16, outcome, key@));
        }
        match outcome {
            Err(e) => Err(e),
            Ok(()) => Ok(FabricRecord::with_key(fabric_id, root, key)),
        }
    }

    /// Describes the certificate of a node of the fabric.
    pub fn issue_noc(
        &self,
        verified_csr: &VerifiedCsr,
        node_id: u64,
        case_authenticated_tags: &[u32],
        validity: (u32, u32),
        rng: &dyn NocRng,
    ) -> (r: Result<NocParams, NocError>)
        ensures
            self.root_cert.subject_key_identifier is None ==> r == Err::<NocParams, NocError>(
                NocError::CertBuild(crate::noc::error::CertFault::MissingField(4)),
            ),
            self.root_cert.subject_key_identifier is Some ==> may_draw(
                rng,
                match r {
                    Ok(params) => Ok(params.serial@),
                    Err(e) => Err(e),
                },
            ),
            r matches Ok(params) ==> crate::noc::issuer::is_noc(
                params,
                *self,
                verified_csr.public_key@,
                node_id,
                case_authenticated_tags@,
                validity,
            ) && is_serial(params.serial@),
            r matches Ok(params) ==> {
                &&& params.not_before == validity.0
                &&& params.not_after == validity.1
                &&& params.fabric_id == self.fabric_id
                &&& params.node_id == node_id
                &&& params.case_authenticated_tags@ == case_authenticated_tags@
                &&& params.issuer_rcac_id == self.root_cert.rcac_id
                &&& params.public_key@ == verified_csr.public_key@
            },
    {
        issue_noc_from(self, verified_csr, node_id, case_authenticated_tags, validity, rng)
    }
}

/// The identifier of a key is the digest of all of its bytes but the first, which
/// says how the point is written.
pub proof fn law_key_identifier(form: u8, coordinates: Seq<u8>)
    ensures
        key_id_of(seq![form] + coordinates) == sha1_of(coordinates),
{
    assert((seq![form] + coordinates).skip(1) =~= coordinates);
}

/// A root certificate is valid from the first to the second time that was asked
/// for, carries the name and the key, is that of a CA with at most one
/// intermediate below it, may sign certificates (bit 5) and revocation lists
/// (bit 6) and do nothing else, and names its own key as that of its issuer.
pub proof fn law_root_certificate(
    p: RcacParams,
    form: u8,
    coordinates: Seq<u8>,
    not_before: u32,
    not_after: u32,
    rcac_id: u64,
)
    requires
        is_rcac(p, seq![form] + coordinates, not_before, not_after, rcac_id),
    ensures
        p.not_before == not_before,
        p.not_after == not_after,
        not_before <= not_after ==> p.not_before <= p.not_after,
        p.rcac_id == rcac_id,
        p.public_key@ == seq![form] + coordinates,
        p.is_ca,
        p.path_len_constraint == Some(1u8),
        p.key_usage == 0x60,
        p.subject_key_identifier@ == sha1_of(coordinates),
        p.authority_key_identifier@ == p.subject_key_identifier@,
{
    law_key_identifier(form, coordinates);
}

/// The certificates of a fabric lead to its root: what is issued for a node names
/// the root certificate and its key as the issuer, whatever the root was made of.
pub proof fn law_node_certificate_leads_to_root(
    fabric: FabricRecord,
    fabric_id: u64,
    root: RcacParams,
    form: u8,
    coordinates: Seq<u8>,
    times: (u32, u32),
    rcac_id: u64,
    p: NocParams,
    public_key: Seq<u8>,
    node_id: u64,
    tags: Seq<u32>,
    validity: (u32, u32),
)
    requires
        is_rcac(root, seq![form] + coordinates, times.0, times.1, rcac_id),
        is_rooted(fabric, fabric_id, root),
        crate::noc::issuer::is_noc(p, fabric, public_key, node_id, tags, validity),
    ensures
        p.fabric_id == fabric_id,
        p.issuer_rcac_id == rcac_id,
        p.issuer_key_identifier@ == sha1_of(coordinates),
        fabric.root_public_key@ == seq![form] + coordinates,
{
    law_key_identifier(form, coordinates);
}

} // verus!
