//! Operational credentials: CSR verification, certificate issuance, and the
//! command codecs of the `OperationalCredentials` cluster.

pub mod commands;
pub mod csr;
pub mod error;
pub mod fabric;
pub mod issuer;

pub use commands::{
    decode_attestation_response, decode_certificate_chain_response, decode_csr_response,
    decode_noc_response, encode_add_noc, encode_add_trusted_root, encode_attestation_request,
    encode_certificate_chain_request, encode_csr_request, encode_update_noc, CertChainType,
    CertificateChainResponse, CsrResponse, NocResponse,
};
pub use csr::{
    parse_and_verify_csr, parse_nocsr, verify_csr_response, NocsrElements, ParsedCsr, VerifiedCsr,
};
pub use error::{CertFault, CsrFault, NocError, NocRng, NocsrFault, SystemNocRng};
pub use fabric::{FabricRecord, RcacParams};
pub use issuer::{issue_icac, issue_noc, IcacParams, NocParams};
