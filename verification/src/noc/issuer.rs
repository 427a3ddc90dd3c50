//! What the certificates of a fabric are made of.
//!
//! A certificate is described by plain values; who holds the root key builds and
//! signs it.

use crate::crypto::PublicKey;
use crate::noc::csr::VerifiedCsr;
use crate::noc::error::{CertFault, NocError, NocRng};
use crate::noc::fabric::FabricRecord;
use vstd::prelude::*;
use vstd::slice::slice_to_vec;

verus! {

/// The length of a serial number.
pub const SERIAL_LEN: usize = 19;

/// The tag of the identifier of a key, which names a missing one.
pub const SUBJECT_KEY_IDENTIFIER_TAG: u8 = 4;

/// Random bytes with the highest bit cleared: a positive number however it is
/// written.
pub open spec fn positive(bytes: Seq<u8>) -> Seq<u8> {
    bytes.update(0, (bytes[0] % 128) as u8)
}

/// A serial number: of the right length, with the highest bit clear.
pub open spec fn is_serial(serial: Seq<u8>) -> bool {
    serial.len() == SERIAL_LEN && serial[0] < 128
}

/// Makes a serial number of random bytes.
pub fn mask_serial(bytes: Vec<u8>) -> (serial: Vec<u8>)
    requires
        bytes@.len() == SERIAL_LEN,
    ensures
        serial@ == positive(bytes@),
        is_serial(serial@),
{
    let mut serial = bytes;
    let first = serial[0];
    assert(first & 0x7F == first % 128) by (bit_vector);
    serial.set(0, first & 0x7F);
    serial
}

/// Whether a source of random bytes may lead to this drawing of a serial
/// number: its bytes with the highest bit cleared, or its error.
pub open spec fn may_draw<R: NocRng + ?Sized>(rng: &R, drawn: Result<Seq<u8>, NocError>) -> bool {
    exists|outcome: Result<(), NocError>, bytes: Seq<u8>|
        {
            &&& #[trigger] rng.may_answer(bytes.len(), outcome, bytes)
            &&& bytes.len() == SERIAL_LEN
            &&& drawn == (match outcome {
                Ok(_) => Ok(positive(bytes)),
                Err(e) => Err(e),
            })
        }
}

/// Draws a serial number. It fails exactly where the source of random bytes
/// fails, with the error of the source.
pub fn draw_serial<R: NocRng + ?Sized>(rng: &R) -> (r: Result<Vec<u8>, NocError>)
    ensures
        may_draw(
            rng,
            match r {
                Ok(serial) => Ok(serial@),
                Err(e) => Err(e),
            },
        ),
        r matches Ok(serial) ==> is_serial(serial@),
{
    let mut bytes: Vec<u8> = vec![0; 19];
    let outcome = rng.fill(&mut bytes);
    proof {
        assert(rng.may_answer(bytes@.len(), outcome, bytes@));
    }
    match outcome {
        Err(e) => Err(e),
        Ok(()) => Ok(mask_serial(bytes)),
    }
}

/// What the certificate of a node is made of. The root issues it.
#[derive(Debug, Clone)]
pub struct NocParams {
    /// The fabric.
    pub fabric_id: u64,
    /// The node.
    pub node_id: u64,
    /// The tags that authenticate the node in groups.
    pub case_authenticated_tags: Vec<u32>,
    /// The identifier in the name of the root.
    pub issuer_rcac_id: u64,
    /// The identifier of the root's key.
    pub issuer_key_identifier: Vec<u8>,
    /// The key of the node.
    pub public_key: PublicKey,
    /// The serial number.
    pub serial: Vec<u8>,
    /// The start of the validity, in seconds since 2000.
    pub not_before: u32,
    /// The end of the validity, in seconds since 2000.
    pub not_after: u32,
}

/// What an intermediate certificate is made of. The root issues it.
#[derive(Debug, Clone)]
pub struct IcacParams {
    /// The identifier in its name.
    pub icac_id: u64,
    /// The identifier in the name of the root.
    pub issuer_rcac_id: u64,
    /// The identifier of the root's key.
    pub issuer_key_identifier: Vec<u8>,
    /// The key of the intermediate.
    pub public_key: PublicKey,
    /// The serial number.
    pub serial: Vec<u8>,
    /// The start of the validity, in seconds since 2000.
    pub not_before: u32,
    /// The end of the validity, in seconds since 2000.
    pub not_after: u32,
}

/// Whether a certificate of a node is the one that was asked for.
pub open spec fn is_noc(
    p: NocParams,
    fabric: FabricRecord,
    public_key: Seq<u8>,
    node_id: u64,
    tags: Seq<u32>,
    validity: (u32, u32),
) -> bool {
    &&& p.fabric_id == fabric.fabric_id
    &&& p.node_id == node_id
    &&& p.case_authenticated_tags@ == tags
    &&& p.issuer_rcac_id == fabric.root_cert.rcac_id
    &&& fabric.root_cert.subject_key_identifier matches Some(id)
    &&& p.issuer_key_identifier@ == id@
    &&& p.public_key@ == public_key
    &&& p.not_before == validity.0
    &&& p.not_after == validity.1
}

/// Whether an intermediate certificate is the one that was asked for.
pub open spec fn is_icac(
    p: IcacParams,
    fabric: FabricRecord,
    public_key: Seq<u8>,
    icac_id: u64,
    validity: (u32, u32),
) -> bool {
    &&& p.icac_id == icac_id
    &&& p.issuer_rcac_id == fabric.root_cert.rcac_id
    &&& fabric.root_cert.subject_key_identifier matches Some(id)
    &&& p.issuer_key_identifier@ == id@
    &&& p.public_key@ == public_key
    &&& p.not_before == validity.0
    &&& p.not_after == validity.1
}

fn copy_tags(tags: &[u32]) -> (copy: Vec<u32>)
    ensures
        copy@ == tags@,
{
    let mut copy: Vec<u32> = Vec::new();
    let mut i: usize = 0;
    while i < tags.len()
        invariant
            i <= tags@.len(),
            copy@ == tags@.take(i as int),
        decreases tags@.len() - i,
    {
        copy.push(tags[i]);
        proof {
            assert(copy@ =~= tags@.take(i + 1));
        }
        i = i + 1;
    }
    proof {
        assert(tags@.take(i as int) =~= tags@);
    }
    copy
}

/// Describes the certificate of a node with the given serial number. The root
/// certificate must identify its key.
pub fn noc_params(
    fabric: &FabricRecord,
    public_key: &PublicKey,
    node_id: u64,
    case_authenticated_tags: &[u32],
    validity: (u32, u32),
    serial: Vec<u8>,
) -> (r: Result<NocParams, NocError>)
    ensures
        match r {
            Ok(params) => is_noc(
                params,
                *fabric,
                public_key@,
                node_id,
                case_authenticated_tags@,
                validity,
            ) && params.serial@ == serial@,
            Err(e) => fabric.root_cert.subject_key_identifier is None && e == NocError::CertBuild(
                CertFault::MissingField(SUBJECT_KEY_IDENTIFIER_TAG),
            ),
        },
        r matches Ok(params) ==> {
            &&& params.not_before == validity.0
            &&& params.not_after == validity.1
            &&& params.fabric_id == fabric.fabric_id
            &&& params.node_id == node_id
            &&& params.case_authenticated_tags@ == case_authenticated_tags@
            &&& params.issuer_rcac_id == fabric.root_cert.rcac_id
            &&& params.public_key@ == public_key@
        },
{
    match &fabric.root_cert.subject_key_identifier {
        None => Err(NocError::CertBuild(CertFault::MissingField(SUBJECT_KEY_IDENTIFIER_TAG))),
        Some(id) => Ok(
            NocParams {
                fabric_id: fabric.fabric_id,
                node_id,
                case_authenticated_tags: copy_tags(case_authenticated_tags),
                issuer_rcac_id: fabric.root_cert.rcac_id,
                issuer_key_identifier: slice_to_vec(id.as_slice()),
                public_key: *public_key,
                serial,
                not_before: validity.0,
                not_after: validity.1,
            },
        ),
    }
}

/// Describes the certificate of a node with the random bytes of any source.
pub(crate) fn issue_noc_from<R: NocRng + ?Sized>(
    fabric: &FabricRecord,
    verified_csr: &VerifiedCsr,
    node_id: u64,
    case_authenticated_tags: &[u32],
    validity: (u32, u32),
    rng: &R,
) -> (r: Result<NocParams, NocError>)
    ensures
        fabric.root_cert.subject_key_identifier is None ==> r == Err::<NocParams, NocError>(
            NocError::CertBuild(CertFault::MissingField(SUBJECT_KEY_IDENTIFIER_TAG)),
        ),
        fabric.root_cert.subject_key_identifier is Some ==> may_draw(
            rng,
            match r {
                Ok(params) => Ok(params.serial@),
                Err(e) => Err(e),
            },
        ),
        r matches Ok(params) ==> is_noc(
            params,
            *fabric,
            verified_csr.public_key@,
            node_id,
            case_authenticated_tags@,
            validity,
        ) && is_serial(params.serial@),
        r matches Ok(params) ==> {
            &&& params.not_before == validity.0
            &&& params.not_after == validity.1
            &&& params.fabric_id == fabric.fabric_id
            &&& params.node_id == node_id
            &&& params.case_authenticated_tags@ == case_authenticated_tags@
            &&& params.issuer_rcac_id == fabric.root_cert.rcac_id
            &&& params.public_key@ == verified_csr.public_key@
        },
{
    if fabric.root_cert.subject_key_identifier.is_none() {
        return Err(NocError::CertBuild(CertFault::MissingField(SUBJECT_KEY_IDENTIFIER_TAG)));
    }
    match draw_serial(rng) {
        Err(e) => Err(e),
        Ok(serial) => noc_params(
            fabric,
            &verified_csr.public_key,
            node_id,
            case_authenticated_tags,
            validity,
            serial,
        ),
    }
}

/// Describes the certificate of a node whose CSR was verified, with a random
/// serial number. Where the root certificate identifies its key, it fails exactly
/// where no serial number can be drawn, with the error of the drawing.
pub fn issue_noc(
    fabric: &FabricRecord,
    verified_csr: &VerifiedCsr,
    node_id: u64,
    case_authenticated_tags: &[u32],
    validity: (u32, u32),
    rng: &dyn NocRng,
) -> (r: Result<NocParams, NocError>)
    ensures
        fabric.root_cert.subject_key_identifier is None ==> r == Err::<NocParams, NocError>(
            NocError::CertBuild(CertFault::MissingField(SUBJECT_KEY_IDENTIFIER_TAG)),
        ),
        fabric.root_cert.subject_key_identifier is Some ==> may_draw(
            rng,
            match r {
                Ok(params) => Ok(params.serial@),
                Err(e) => Err(e),
            },
        ),
        r matches Ok(params) ==> is_noc(
            params,
            *fabric,
            verified_csr.public_key@,
            node_id,
            case_authenticated_tags@,
            validity,
        ) && is_serial(params.serial@),
        r matches Ok(params) ==> {
            &&& params.not_before == validity.0
            &&& params.not_after == validity.1
            &&& params.fabric_id == fabric.fabric_id
            &&& params.node_id == node_id
            &&& params.case_authenticated_tags@ == case_authenticated_tags@
            &&& params.issuer_rcac_id == fabric.root_cert.rcac_id
            &&& params.public_key@ == verified_csr.public_key@
        },
{
    issue_noc_from(fabric, verified_csr, node_id, case_authenticated_tags, validity, rng)
}

/// Describes an intermediate certificate with the given serial number. The root
/// certificate must identify its key.
pub fn icac_params(
    fabric: &FabricRecord,
    icac_id: u64,
    icac_public_key: &PublicKey,
    validity: (u32, u32),
    serial: Vec<u8>,
) -> (r: Result<IcacParams, NocError>)
    ensures
        match r {
            Ok(params) => is_icac(params, *fabric, icac_public_key@, icac_id, validity)
                && params.serial@ == serial@,
            Err(e) => fabric.root_cert.subject_key_identifier is None && e == NocError::CertBuild(
                CertFault::MissingField(SUBJECT_KEY_IDENTIFIER_TAG),
            ),
        },
        r matches Ok(params) ==> {
            &&& params.not_before == validity.0
            &&& params.not_after == validity.1
            &&& params.icac_id == icac_id
            &&& params.issuer_rcac_id == fabric.root_cert.rcac_id
            &&& params.public_key@ == icac_public_key@
        },
{
    match &fabric.root_cert.subject_key_identifier {
        None => Err(NocError::CertBuild(CertFault::MissingField(SUBJECT_KEY_IDENTIFIER_TAG))),
        Some(id) => Ok(
            IcacParams {
                icac_id,
                issuer_rcac_id: fabric.root_cert.rcac_id,
                issuer_key_identifier: slice_to_vec(id.as_slice()),
                public_key: *icac_public_key,
                serial,
                not_before: validity.0,
                not_after: validity.1,
            },
        ),
    }
}

/// Describes an intermediate certificate with a random serial number. Where the
/// root certificate identifies its key, it fails exactly where no serial number
/// can be drawn, with the error of the drawing.
pub fn issue_icac(
    fabric: &FabricRecord,
    icac_id: u64,
    icac_public_key: &PublicKey,
    validity: (u32, u32),
    rng: &dyn NocRng,
) -> (r: Result<IcacParams, NocError>)
    ensures
        fabric.root_cert.subject_key_identifier is None ==> r == Err::<IcacParams, NocError>(
            NocError::CertBuild(CertFault::MissingField(SUBJECT_KEY_IDENTIFIER_TAG)),
        ),
        fabric.root_cert.subject_key_identifier is Some ==> may_draw(
            rng,
            match r {
                Ok(params) => Ok(params.serial@),
                Err(e) => Err(e),
            },
        ),
        r matches Ok(params) ==> is_icac(params, *fabric, icac_public_key@, icac_id, validity)
            && is_serial(params.serial@),
        r matches Ok(params) ==> {
            &&& params.not_before == validity.0
            &&& params.not_after == validity.1
            &&& params.icac_id == icac_id
            &&& params.issuer_rcac_id == fabric.root_cert.rcac_id
            &&& params.public_key@ == icac_public_key@
        },
{
    if fabric.root_cert.subject_key_identifier.is_none() {
        return Err(NocError::CertBuild(CertFault::MissingField(SUBJECT_KEY_IDENTIFIER_TAG)));
    }
    match draw_serial(rng) {
        Err(e) => Err(e),
        Ok(serial) => icac_params(fabric, icac_id, icac_public_key, validity, serial),
    }
}

/// Whatever the random bytes are, the serial number made of them has its
/// highest bit clear and keeps the others.
pub proof fn law_serial_is_positive(bytes: Seq<u8>)
    requires
        bytes.len() == SERIAL_LEN,
    ensures
        is_serial(positive(bytes)),
        forall|i: int| 0 < i < SERIAL_LEN ==> positive(bytes)[i] == bytes[i],
        bytes[0] < 128 ==> positive(bytes) == bytes,
{
    if bytes[0] < 128 {
        assert(positive(bytes) =~= bytes);
    }
}

/// A serial number has 19 bytes and is positive: read as a number, high byte
/// first, it is the number of the random bytes without its highest bit.
pub proof fn law_serial_number(bytes: Seq<u8>)
    requires
        bytes.len() == 19,
    ensures
        positive(bytes).len() == 19,
        positive(bytes)[0] < 0x80,
        bytes[0] == positive(bytes)[0] || bytes[0] == positive(bytes)[0] + 0x80,
        forall|i: int| 0 < i < 19 ==> #[trigger] positive(bytes)[i] == bytes[i],
        is_serial(bytes) <==> bytes[0] < 0x80,
        is_serial(bytes) ==> positive(bytes) == bytes,
{
    if bytes[0] < 128 {
        assert(positive(bytes) =~= bytes);
    }
}

/// A drawing that gives a serial number comes of 19 bytes of the source, and one
/// that fails gives the error of the source.
pub proof fn law_drawing<R: NocRng + ?Sized>(rng: &R, drawn: Result<Seq<u8>, NocError>)
    requires
        may_draw(rng, drawn),
    ensures
        drawn matches Ok(serial) ==> serial.len() == 19 && serial[0] < 0x80 && exists|
            outcome: Result<(), NocError>,
            bytes: Seq<u8>,
        |
            {
                &&& #[trigger] rng.may_answer(19, outcome, bytes)
                &&& outcome is Ok
                &&& bytes.len() == 19
                &&& forall|i: int| 0 < i < 19 ==> serial[i] == bytes[i]
                &&& serial[0] % 0x80 == bytes[0] % 0x80
            },
        drawn matches Err(e) ==> exists|bytes: Seq<u8>| #[trigger]
            rng.may_answer(19, Err(e), bytes),
{
    let (outcome, bytes) = choose|outcome: Result<(), NocError>, bytes: Seq<u8>|
        {
            &&& #[trigger] rng.may_answer(bytes.len(), outcome, bytes)
            &&& bytes.len() == SERIAL_LEN
            &&& drawn == (match outcome {
                Ok(_) => Ok(positive(bytes)),
                Err(e) => Err(e),
            })
        };
    assert(rng.may_answer(19, outcome, bytes));
    if let Ok(serial) = drawn {
        assert(serial[0] == bytes[0] % 0x80);
    }
}

/// The certificate of a node starts at the first and ends at the second of the
/// two times that were asked for, so that it is never turned round.
pub proof fn law_noc_validity(
    p: NocParams,
    fabric: FabricRecord,
    public_key: Seq<u8>,
    node_id: u64,
    tags: Seq<u32>,
    validity: (u32, u32),
)
    requires
        is_noc(p, fabric, public_key, node_id, tags, validity),
    ensures
        p.not_before == validity.0,
        p.not_after == validity.1,
        validity.0 <= validity.1 ==> p.not_before <= p.not_after,
{
}

/// The certificate of a node names the fabric, the node and its tags, carries
/// the key of the node, and points to the root by the name and the key that the
/// root certificate says of itself.
pub proof fn law_noc_identity(
    p: NocParams,
    fabric: FabricRecord,
    public_key: Seq<u8>,
    node_id: u64,
    tags: Seq<u32>,
    validity: (u32, u32),
)
    requires
        is_noc(p, fabric, public_key, node_id, tags, validity),
    ensures
        p.fabric_id == fabric.fabric_id,
        p.node_id == node_id,
        p.case_authenticated_tags@ == tags,
        p.public_key@ == public_key,
        p.issuer_rcac_id == fabric.root_cert.rcac_id,
        fabric.root_cert.subject_key_identifier is Some,
        p.issuer_key_identifier@ == fabric.root_cert.subject_key_identifier->Some_0@,
{
}

/// Certificates that say the same of a node were asked for with the same key,
/// node, tags and times.
pub proof fn law_noc_tells_requests_apart(
    p: NocParams,
    fabric: FabricRecord,
    public_keys: (Seq<u8>, Seq<u8>),
    node_ids: (u64, u64),
    tags: (Seq<u32>, Seq<u32>),
    validities: ((u32, u32), (u32, u32)),
)
    requires
        is_noc(p, fabric, public_keys.0, node_ids.0, tags.0, validities.0),
        is_noc(p, fabric, public_keys.1, node_ids.1, tags.1, validities.1),
    ensures
        public_keys.0 == public_keys.1,
        node_ids.0 == node_ids.1,
        tags.0 == tags.1,
        validities.0 == validities.1,
{
}

/// An intermediate certificate carries the name and the key that were asked for,
/// points to the root by what the root certificate says of itself, and starts at
/// the first and ends at the second of the two times.
pub proof fn law_icac_is_as_asked(
    p: IcacParams,
    fabric: FabricRecord,
    public_key: Seq<u8>,
    icac_id: u64,
    validity: (u32, u32),
)
    requires
        is_icac(p, fabric, public_key, icac_id, validity),
    ensures
        p.icac_id == icac_id,
        p.public_key@ == public_key,
        p.issuer_rcac_id == fabric.root_cert.rcac_id,
        fabric.root_cert.subject_key_identifier is Some,
        p.issuer_key_identifier@ == fabric.root_cert.subject_key_identifier->Some_0@,
        p.not_before == validity.0,
        p.not_after == validity.1,
        validity.0 <= validity.1 ==> p.not_before <= p.not_after,
{
}

} // verus!
