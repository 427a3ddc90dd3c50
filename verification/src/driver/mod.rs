//! The decisions of the commissioning driver.
//!
//! The driver sends and receives datagrams, keeps timers and runs handshakes.
//! What it decides in between stands here: each decision is a function from a
//! state and an event to the next state and an action.

pub mod commission;
pub mod discovery;
pub mod error;
pub mod exchange;
pub mod handshake;
pub mod names;
pub mod unsecured;

pub use error::{DriverError, TransportFault};
pub use exchange::{SecuredResponse, MAX_READ_BYTES, MAX_READ_CHUNKS};
pub use unsecured::{
    decode_unsecured, encode_unsecured, parse_status_report, require_handshake_opcode,
    SecureChannelStatus, UnsecuredExchange, UnsecuredMessage,
};

use vstd::prelude::*;

verus! {

/// Who makes messages reliable.
#[derive(Debug, Clone, Copy, PartialEq, Eq, Structural)]
pub enum TransportReliability {
    /// The exchange: it asks for acknowledgements and sends again.
    Mrp,
    /// The transport: the exchange asks for nothing and sends once.
    TransportProvides,
}

} // verus!
