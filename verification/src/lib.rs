//! Matter commissioning: setup payloads, device attestation, operational
//! credentials, cluster command codecs, and the decisions of the driver that
//! sequences them.
//!
//! Every function of the crate states what it returns over mathematical
//! models of the wire formats; the models themselves are open, so a reader can
//! follow a contract down to single bytes.

pub mod attestation;
pub mod clusters;
pub mod crypto;
pub mod driver;
pub mod im;
pub mod noc;
pub mod setup;
pub mod state_machine;
pub mod text;
pub mod tlv;

pub use attestation::{
    extract_attestation_elements_fields, verify_attestation_response, verify_chain,
    verify_dac_signed_elements, AttestationElementsFields, AttestationError, AttestationResponse,
    ChainVerification, Dac, Paa, PaaTrustStore, Pai, ProductId, VendorId,
};
pub use clusters::network_commissioning::{
    decode_connect_network_response, decode_feature_map, decode_network_config_response,
    encode_add_or_update_wifi_network, encode_connect_network, remediation_for,
    ConnectNetworkResponse, NetworkCommissioningFeature, NetworkConfigResponse,
};
pub use im::{
    build_invoke_request, build_read_request, AttributePath, CommandPath, ImError, ImStatus,
    InvokeResponse, ReportData, IM_REVISION,
};
pub use noc::{
    decode_attestation_response, decode_certificate_chain_response, decode_csr_response,
    decode_noc_response, encode_add_noc, encode_add_trusted_root, encode_attestation_request,
    encode_certificate_chain_request, encode_csr_request, encode_update_noc, issue_icac, issue_noc,
    parse_and_verify_csr, parse_nocsr, verify_csr_response, CertChainType,
    CertificateChainResponse, CsrResponse, FabricRecord, NocError, NocResponse, NocRng,
    NocsrElements, ParsedCsr, SystemNocRng, VerifiedCsr,
};
pub use setup::{
    encode_manual_code, encode_qr, parse_manual_code, parse_qr, CommissioningFlow,
    DiscoveryCapabilities, Discriminator, Error as SetupError, Passcode, SetupPayload,
};
pub use state_machine::{
    CommissioningError, Expectation, RemediationHint, SessionContext, Stage,
};
