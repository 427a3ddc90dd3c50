//! Validation of the chain from a device certificate to a trusted root.

use crate::attestation::error::{map_path_fault, path_error, AttestationError, PathFault};
use crate::attestation::extensions::{lemma_vendor, same_bytes, vendor, ProductId, VendorId};
use crate::attestation::trust_store::PaaTrustStore;
use crate::attestation::x509::{Dac, DacView, Paa, PaaView, Pai, PaiView};
use rustls_pki_types::{CertificateDer, UnixTime};
use vstd::prelude::*;
use vstd::slice::slice_to_vec;
use webpki::ring::ECDSA_P256_SHA256;
use webpki::{anchor_from_trusted_cert, EndEntityCert, Error as WebpkiError, KeyUsage};

verus! {

/// The error of path validation.
#[verifier::external_type_specification]
#[verifier::external_body]
pub struct ExPathError(WebpkiError);

/// Which of the reasons that the library tells apart an error of path validation
/// is.
pub uninterp spec fn webpki_fault(err: WebpkiError) -> PathFault;

/// Converts a `webpki::Error` to the reasons that the library tells apart, one
/// variant each; all the others become `Other`. The reason depends on the error
/// alone; which variant it is stays unsaid, since Verus cannot look into it.
#[verifier::external_body]
pub(crate) fn path_fault(err: WebpkiError) -> (fault: PathFault)
    ensures
        fault == webpki_fault(err),
{
    match err {
        WebpkiError::CertExpired { .. } => PathFault::CertExpired,
        WebpkiError::CertNotValidYet { .. } => PathFault::CertNotValidYet,
        WebpkiError::InvalidCertValidity => PathFault::InvalidCertValidity,
        WebpkiError::PathLenConstraintViolated => PathFault::PathLenConstraintViolated,
        WebpkiError::EndEntityUsedAsCa => PathFault::EndEntityUsedAsCa,
        WebpkiError::CaUsedAsEndEntity => PathFault::CaUsedAsEndEntity,
        WebpkiError::UnknownIssuer => PathFault::UnknownIssuer,
        _ => PathFault::Other,
    }
}

/// The error for a refusal by `webpki`.
pub fn map_webpki_error(err: WebpkiError) -> (e: AttestationError)
    ensures
        e == path_error(webpki_fault(err)),
{
    map_path_fault(path_fault(err))
}

/// What validation of the path from a leaf over one intermediate to one of the
/// roots, all of them DER, says for the given second since 1970.
pub uninterp spec fn webpki_path(
    leaf: Seq<u8>,
    intermediate: Seq<u8>,
    roots: Seq<Seq<u8>>,
    unix_seconds: u64,
) -> Result<(), PathFault>;

/// Calls `webpki`'s `verify_for_usage` for client authentication, with ECDSA on
/// P-256 and SHA-256 as the only signature algorithm and without revocation, on
/// what its `anchor_from_trusted_cert` makes of the roots. The verdict depends on
/// the arguments alone; a root that is no certificate is a refusal too.
#[verifier::external_body]
fn validate_path(leaf: &[u8], intermediate: &[u8], roots: &Vec<&[u8]>, unix_seconds: u64) -> (r:
    Result<(), PathFault>)
    ensures
        r == webpki_path(
            leaf@,
            intermediate@,
            roots@.map_values(|root: &[u8]| root@),
            unix_seconds,
        ),
{
    let leaf = CertificateDer::from(leaf);
    let between = [CertificateDer::from(intermediate)];
    let ders: Vec<CertificateDer<'_>> = roots.iter().map(|r| CertificateDer::from(*r)).collect();
    let anchors: Result<Vec<_>, _> = ders.iter().map(anchor_from_trusted_cert).collect();
    let anchors = anchors.map_err(path_fault)?;
    let time = UnixTime::since_unix_epoch(core::time::Duration::from_secs(unix_seconds));
    let leaf = EndEntityCert::try_from(&leaf).map_err(path_fault)?;
    let usage = KeyUsage::client_auth();
    leaf.verify_for_usage(&[ECDSA_P256_SHA256], &anchors, &between, time, usage, None, None)
        .map(|_| ())
        .map_err(path_fault)
}

/// What a valid chain attests.
#[derive(Debug, Clone)]
pub struct ChainVerification {
    /// The vendor of the device.
    pub vendor_id: VendorId,
    /// The product.
    pub product_id: ProductId,
    /// The public key of the device certificate.
    pub dac_public_key: Vec<u8>,
    /// The DER of the name of the root.
    pub paa_subject: Vec<u8>,
}

/// The model of what a valid chain attests.
#[verifier::ext_equal]
pub struct ChainView {
    /// The vendor of the device.
    pub vendor_id: u16,
    /// The product.
    pub product_id: u16,
    /// The public key of the device certificate.
    pub dac_public_key: Seq<u8>,
    /// The DER of the name of the root.
    pub paa_subject: Seq<u8>,
}

impl View for ChainVerification {
    type V = ChainView;

    open spec fn view(&self) -> ChainView {
        ChainView {
            vendor_id: self.vendor_id@,
            product_id: self.product_id@,
            dac_public_key: self.dac_public_key@,
            paa_subject: self.paa_subject@,
        }
    }
}

/// The first root with the given name.
pub open spec fn anchor(roots: Seq<PaaView>, name: Seq<u8>) -> Option<PaaView>
    decreases roots.len(),
{
    if roots.len() == 0 {
        None
    } else if roots[0].subject_raw == name {
        Some(roots[0])
    } else {
        anchor(roots.skip(1), name)
    }
}

/// What a chain attests, given the verdict of path validation. Its issuer has
/// to be of the vendor of the device, and of its product where it is bound to
/// one; the root has to be of that vendor where it is bound to one.
pub open spec fn chain_verdict(
    path: Result<(), PathFault>,
    dac: DacView,
    pai: PaiView,
    roots: Seq<PaaView>,
) -> Result<ChainView, AttestationError> {
    if path is Err {
        Err(path_error(path->Err_0))
    } else if dac.subject_vid != pai.subject_vid {
        Err(
            AttestationError::VidMismatch {
                dac: vendor(dac.subject_vid),
                pai: vendor(pai.subject_vid),
            },
        )
    } else if pai.subject_pid is Some && pai.subject_pid != Some(dac.subject_pid) {
        Err(AttestationError::PaiVidNotAuthorized)
    } else {
        match anchor(roots, pai.issuer_raw) {
            None => Err(AttestationError::UntrustedRoot),
            Some(paa) => if paa.subject_vid is Some && paa.subject_vid != Some(dac.subject_vid) {
                Err(
                    AttestationError::PaaVidScopeMismatch {
                        paa_vid: vendor(paa.subject_vid->Some_0),
                        dac_vid: vendor(dac.subject_vid),
                    },
                )
            } else {
                Ok(
                    ChainView {
                        vendor_id: dac.subject_vid,
                        product_id: dac.subject_pid,
                        dac_public_key: dac.public_key,
                        paa_subject: paa.subject_raw,
                    },
                )
            },
        }
    }
}

/// The DERs of the roots.
pub open spec fn root_ders(roots: Seq<PaaView>) -> Seq<Seq<u8>> {
    roots.map_values(|paa: PaaView| paa.der)
}

fn find_anchor<'a>(roots: &'a PaaTrustStore, name: &[u8]) -> (paa: Option<&'a Paa>)
    ensures
        match anchor(roots@, name@) {
            Some(view) => paa matches Some(p) && p@ == view,
            None => paa is None,
        },
{
    let mut i: usize = 0;
    proof {
        assert(roots@.skip(0) =~= roots@);
    }
    while i < roots.len()
        invariant
            i <= roots@.len(),
            anchor(roots@, name@) == anchor(roots@.skip(i as int), name@),
        decreases roots@.len() - i,
    {
        let paa = roots.get(i);
        proof {
            assert(roots@.skip(i as int)[0] == paa@);
            assert(roots@.skip(i as int).skip(1) =~= roots@.skip(i + 1));
        }
        if same_bytes(paa.subject_raw(), name) {
            return Some(paa);
        }
        i = i + 1;
    }
    proof {
        assert(roots@.skip(i as int).len() == 0);
    }
    None
}

/// Decides on a chain, given the verdict of path validation.
pub fn conclude_chain(
    path: Result<(), PathFault>,
    dac: &Dac,
    pai: &Pai,
    trust_store: &PaaTrustStore,
) -> (r: Result<ChainVerification, AttestationError>)
    ensures
        match chain_verdict(path, dac@, pai@, trust_store@) {
            Ok(view) => r matches Ok(chain) && chain@ == view,
            Err(e) => r == Err::<ChainVerification, AttestationError>(e),
        },
{
    if let Err(fault) = path {
        return Err(map_path_fault(fault));
    }
    let vid = dac.subject_vid();
    let issuer_vid = pai.subject_vid();
    proof {
        lemma_vendor(vid);
        lemma_vendor(issuer_vid);
    }
    if vid.as_u16() != issuer_vid.as_u16() {
        return Err(AttestationError::VidMismatch { dac: vid, pai: issuer_vid });
    }
    let pid = dac.subject_pid();
    if let Some(issuer_pid) = pai.subject_pid() {
        if issuer_pid.as_u16() != pid.as_u16() {
            return Err(AttestationError::PaiVidNotAuthorized);
        }
    }
    let paa = match find_anchor(trust_store, pai.issuer_raw()) {
        None => {
            return Err(AttestationError::UntrustedRoot);
        },
        Some(paa) => paa,
    };
    if let Some(paa_vid) = paa.subject_vid() {
        proof {
            lemma_vendor(paa_vid);
        }
        if paa_vid.as_u16() != vid.as_u16() {
            return Err(AttestationError::PaaVidScopeMismatch { paa_vid, dac_vid: vid });
        }
    }
    Ok(
        ChainVerification {
            vendor_id: vid,
            product_id: pid,
            dac_public_key: slice_to_vec(dac.public_key()),
            paa_subject: slice_to_vec(paa.subject_raw()),
        },
    )
}

/// What the chain of a device attests at the given second since 1970.
pub open spec fn chain_outcome(
    dac: DacView,
    pai: PaiView,
    roots: Seq<PaaView>,
    unix_seconds: u64,
) -> Result<ChainView, AttestationError> {
    chain_verdict(
        webpki_path(dac.der, pai.der, root_ders(roots), unix_seconds),
        dac,
        pai,
        roots,
    )
}

/// Validates the chain of a device at the given second since 1970: its path
/// to one of the trusted roots, and the vendors and products along it.
pub fn verify_chain(
    dac: &Dac,
    pai: &Pai,
    trust_store: &PaaTrustStore,
    unix_seconds: u64,
) -> (r: Result<ChainVerification, AttestationError>)
    ensures
        match chain_verdict(
            webpki_path(dac@.der, pai@.der, root_ders(trust_store@), unix_seconds),
            dac@,
            pai@,
            trust_store@,
        ) {
            Ok(view) => r matches Ok(chain) && chain@ == view,
            Err(e) => r == Err::<ChainVerification, AttestationError>(e),
        },
        match chain_outcome(dac@, pai@, trust_store@, unix_seconds) {
            Ok(view) => r matches Ok(chain) && chain@ == view,
            Err(e) => r == Err::<ChainVerification, AttestationError>(e),
        },
{
    let mut ders: Vec<&[u8]> = Vec::new();
    let mut i: usize = 0;
    while i < trust_store.len()
        invariant
            i <= trust_store@.len(),
            ders@.len() == i,
            forall|j: int| 0 <= j < i ==> (#[trigger] ders@[j])@ == trust_store@[j].der,
        decreases trust_store@.len() - i,
    {
        ders.push(trust_store.get(i).der());
        i = i + 1;
    }
    proof {
        assert(ders@.map_values(|root: &[u8]| root@) =~= root_ders(trust_store@));
    }
    let path = validate_path(dac.der(), pai.der(), &ders, unix_seconds);
    conclude_chain(path, dac, pai, trust_store)
}

/// A chain attests a vendor only if the device, its issuer and a trusted root
/// with the name of the issuer's issuer are all of that vendor, as far as they
/// are bound to one, and path validation passed.
pub proof fn law_chain_vendor(
    path: Result<(), PathFault>,
    dac: DacView,
    pai: PaiView,
    roots: Seq<PaaView>,
)
    requires
        chain_verdict(path, dac, pai, roots) is Ok,
    ensures
        path is Ok,
        chain_verdict(path, dac, pai, roots)->Ok_0.vendor_id == dac.subject_vid,
        dac.subject_vid == pai.subject_vid,
        pai.subject_pid is Some ==> pai.subject_pid == Some(dac.subject_pid),
        exists|i: int|
            0 <= i < roots.len() && (#[trigger] roots[i]).subject_raw == pai.issuer_raw && (
            roots[i].subject_vid is Some ==> roots[i].subject_vid == Some(dac.subject_vid)),
{
    lemma_anchor_is_root(roots, pai.issuer_raw);
}

/// The anchor is one of the roots, and has the name.
proof fn lemma_anchor_is_root(roots: Seq<PaaView>, name: Seq<u8>)
    ensures
        anchor(roots, name) matches Some(paa) ==> paa.subject_raw == name && exists|i: int|
            0 <= i < roots.len() && #[trigger] roots[i] == paa,
    decreases roots.len(),
{
    if roots.len() > 0 && roots[0].subject_raw != name {
        lemma_anchor_is_root(roots.skip(1), name);
        if anchor(roots, name) is Some {
            let paa = anchor(roots, name)->Some_0;
            let i = choose|i: int| 0 <= i < roots.skip(1).len() && #[trigger] roots.skip(1)[i] == paa;
            assert(roots[i + 1] == paa);
        }
    }
}

/// The root that counts is the first one with the wanted name.
pub proof fn law_first_root_counts(roots: Seq<PaaView>, name: Seq<u8>, i: int)
    requires
        0 <= i <= roots.len(),
        forall|j: int| 0 <= j < i ==> (#[trigger] roots[j]).subject_raw != name,
    ensures
        i < roots.len() && roots[i].subject_raw == name ==> anchor(roots, name) == Some(roots[i]),
        i == roots.len() ==> anchor(roots, name) is None,
    decreases i,
{
    if i > 0 {
        let rest = roots.skip(1);
        assert(roots[0].subject_raw != name);
        assert forall|j: int| 0 <= j < i - 1 implies (#[trigger] rest[j]).subject_raw != name by {
            assert(rest[j] == roots[j + 1]);
        }
        law_first_root_counts(rest, name, i - 1);
    }
}

/// What a chain attests is what the device certificate says: its vendor, its
/// product and its key; and the name of the root is the one that the intermediate
/// gives as its issuer.
pub proof fn law_chain_attests_the_device(
    path: Result<(), PathFault>,
    dac: DacView,
    pai: PaiView,
    roots: Seq<PaaView>,
)
    ensures
        chain_verdict(path, dac, pai, roots) matches Ok(chain) ==> {
            &&& chain.vendor_id == dac.subject_vid
            &&& chain.product_id == dac.subject_pid
            &&& chain.dac_public_key == dac.public_key
            &&& chain.paa_subject == pai.issuer_raw
        },
{
    lemma_anchor_is_root(roots, pai.issuer_raw);
}

/// A chain is accepted exactly if its path is, the intermediate is of the vendor
/// of the device and, if it is bound to a product, of its product, and the first
/// root with the name of the intermediate's issuer is there and, if it is bound to
/// a vendor, of that vendor.
pub proof fn law_chain_checks(
    path: Result<(), PathFault>,
    dac: DacView,
    pai: PaiView,
    roots: Seq<PaaView>,
    i: int,
)
    requires
        0 <= i <= roots.len(),
        forall|j: int| 0 <= j < i ==> (#[trigger] roots[j]).subject_raw != pai.issuer_raw,
        i < roots.len() ==> roots[i].subject_raw == pai.issuer_raw,
    ensures
        chain_verdict(path, dac, pai, roots) is Ok <==> {
            &&& path is Ok
            &&& dac.subject_vid == pai.subject_vid
            &&& (pai.subject_pid matches Some(pid) ==> pid == dac.subject_pid)
            &&& i < roots.len()
            &&& (roots[i].subject_vid matches Some(vid) ==> vid == dac.subject_vid)
        },
        path is Ok && dac.subject_vid != pai.subject_vid ==> chain_verdict(
            path,
            dac,
            pai,
            roots,
        ) matches Err(AttestationError::VidMismatch { dac: _, pai: _ }),
        path is Ok && dac.subject_vid == pai.subject_vid && pai.subject_pid is Some
            && pai.subject_pid->Some_0 != dac.subject_pid ==> chain_verdict(path, dac, pai, roots)
            == Err::<ChainView, AttestationError>(AttestationError::PaiVidNotAuthorized),
{
    law_first_root_counts(roots, pai.issuer_raw, i);
}

/// A path that is refused refuses the chain, whatever the certificates say.
pub proof fn law_refused_path_refuses_the_chain(
    fault: PathFault,
    dac: DacView,
    pai: PaiView,
    roots: Seq<PaaView>,
)
    ensures
        chain_verdict(Err(fault), dac, pai, roots) == Err::<ChainView, AttestationError>(
            path_error(fault),
        ),
{
}

/// A chain is accepted only if path validation accepts the path from the device's
/// certificate over the intermediate to the DERs of the trusted roots, in their
/// order, for the given second; what is then attested is what the device's
/// certificate says.
pub proof fn law_chain_is_validated(
    dac: DacView,
    pai: PaiView,
    roots: Seq<PaaView>,
    ders: Seq<Seq<u8>>,
    unix_seconds: u64,
)
    requires
        ders.len() == roots.len(),
        forall|i: int| 0 <= i < roots.len() ==> #[trigger] ders[i] == roots[i].der,
    ensures
        chain_outcome(dac, pai, roots, unix_seconds) matches Ok(chain) ==> {
            &&& webpki_path(dac.der, pai.der, ders, unix_seconds) is Ok
            &&& chain.vendor_id == dac.subject_vid
            &&& chain.product_id == dac.subject_pid
            &&& chain.dac_public_key == dac.public_key
        },
        webpki_path(dac.der, pai.der, ders, unix_seconds) matches Err(fault) ==> chain_outcome(
            dac,
            pai,
            roots,
            unix_seconds,
        ) == Err::<ChainView, AttestationError>(path_error(fault)),
        roots.len() == 0 ==> chain_outcome(dac, pai, roots, unix_seconds) is Err,
{
    assert(root_ders(roots) =~= ders);
}

} // verus!
