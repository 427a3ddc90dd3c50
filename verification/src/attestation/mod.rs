//! Device attestation: certificates, chains and signed responses.

pub mod chain;
pub mod error;
pub mod extensions;
pub mod profile;
pub mod response;
pub mod trust_store;
pub mod x509;

pub use chain::{verify_chain, ChainVerification};
pub use error::AttestationError;
pub use extensions::{ProductId, VendorId};
pub use profile::{verify_attestation_cert_format, CertRole};
pub use response::{
    extract_attestation_elements_fields, verify_attestation_response, verify_dac_signed_elements,
    AttestationElementsFields, AttestationResponse,
};
pub use trust_store::PaaTrustStore;
pub use x509::{Dac, Paa, Pai};
