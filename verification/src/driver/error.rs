//! The errors of the driver.

use crate::im::error::{im_error_text, ImError};
use crate::state_machine::CommissioningError;
use crate::text::{decimal, padded_lower_hex, push_decimal, push_padded_lower_hex, push_text};
use vstd::prelude::*;

verus! {

/// Why the transport refuses a frame or a session.
#[derive(Debug, Clone, Copy, PartialEq, Eq, Structural)]
pub enum TransportFault {
    /// The frame ends inside a header.
    Truncated,
    /// The header has a form that is not supported.
    Unsupported,
    /// No session has the number that the frame names.
    UnknownSession,
    /// The frame cannot be decrypted.
    DecryptionFailed,
    /// Any other reason.
    Other,
}

/// The errors of the driver.
#[derive(Debug, Clone, PartialEq, Eq)]
#[non_exhaustive]
pub enum DriverError {
    /// A datagram could not be sent or received.
    Io(String),
    /// The transport refused a frame, a session or a query.
    Transport(TransportFault),
    /// A step of a handshake failed.
    Crypto(String),
    /// A message of the Interaction Model could not be built or parsed.
    Im(ImError),
    /// The commissioning state machine failed.
    Commissioning(CommissioningError),
    /// The device could not be discovered.
    Discovery(String),
    /// No answer came on an exchange.
    Timeout {
        /// The exchange.
        exchange_id: u16,
    },
    /// The peer broke the protocol of a handshake.
    Handshake(&'static str),
    /// A frame of a secured session came where an unsecured one was required.
    UnexpectedSecuredMessage(u16),
    /// The peer refused to establish a session.
    SessionEstablishmentFailed {
        /// The general code of the refusal.
        general_code: u16,
        /// The code of the protocol.
        protocol_code: u16,
    },
    /// A read returns more than the driver takes.
    ReadTooLarge {
        /// The limit that it exceeds.
        limit: &'static str,
    },
    /// The state machine gave up.
    Aborted(String),
}

/// The text for each refusal of the transport.
pub open spec fn transport_fault_text(fault: TransportFault) -> Seq<char> {
    match fault {
        TransportFault::Truncated => "truncated header"@,
        TransportFault::Unsupported => "unsupported header"@,
        TransportFault::UnknownSession => "unknown session"@,
        TransportFault::DecryptionFailed => "decryption failed"@,
        TransportFault::Other => "refused"@,
    }
}

fn fault_text(fault: TransportFault) -> (text: &'static str)
    ensures
        text@ == transport_fault_text(fault),
{
    match fault {
        TransportFault::Truncated => "truncated header",
        TransportFault::Unsupported => "unsupported header",
        TransportFault::UnknownSession => "unknown session",
        TransportFault::DecryptionFailed => "decryption failed",
        TransportFault::Other => "refused",
    }
}

/// The text for each error.
pub open spec fn driver_error_text(e: DriverError) -> Seq<char> {
    match e {
        DriverError::Io(cause) => "datagram I/O error: "@ + cause@,
        DriverError::Transport(fault) => "transport/session error: "@ + transport_fault_text(fault),
        DriverError::Crypto(cause) => "crypto handshake error: "@ + cause@,
        DriverError::Im(cause) => "interaction-model framing error: "@ + im_error_text(cause),
        DriverError::Commissioning(_) => {
            "commissioning state-machine error: malformed response"@
        },
        DriverError::Discovery(cause) => "device discovery failed: "@ + cause@,
        DriverError::Timeout { exchange_id } => {
            "retransmit budget exhausted on exchange "@ + decimal(exchange_id as nat)
        },
        DriverError::Handshake(what) => "handshake protocol error: "@ + what@,
        DriverError::UnexpectedSecuredMessage(session_id) => {
            "expected unsecured (session-id 0) message, got session id "@ + decimal(
                session_id as nat,
            )
        },
        DriverError::SessionEstablishmentFailed { general_code, protocol_code } => {
            "session establishment rejected: general code "@ + decimal(general_code as nat)
                + ", protocol code 0x"@ + padded_lower_hex(protocol_code as nat, 4)
        },
        DriverError::ReadTooLarge { limit } => "read exceeds "@ + limit@,
        DriverError::Aborted(reason) => "commissioning aborted: "@ + reason@,
    }
}

impl DriverError {
    /// The text for an operator.
    pub fn message(&self) -> (text: String)
        ensures
            text@ == driver_error_text(*self),
    {
        let mut text = String::new();
        match self {
            DriverError::Io(cause) => {
                push_text(&mut text, "datagram I/O error: ");
                push_text(&mut text, cause.as_str());
            },
            DriverError::Transport(fault) => {
                push_text(&mut text, "transport/session error: ");
                push_text(&mut text, fault_text(*fault));
            },
            DriverError::Crypto(cause) => {
                push_text(&mut text, "crypto handshake error: ");
                push_text(&mut text, cause.as_str());
            },
            DriverError::Im(cause) => {
                push_text(&mut text, "interaction-model framing error: ");
                push_text(&mut text, cause.message().as_str());
            },
            DriverError::Commissioning(_) => {
                push_text(&mut text, "commissioning state-machine error: malformed response");
            },
            DriverError::Discovery(cause) => {
                push_text(&mut text, "device discovery failed: ");
                push_text(&mut text, cause.as_str());
            },
            DriverError::Timeout { exchange_id } => {
                push_text(&mut text, "retransmit budget exhausted on exchange ");
                push_decimal(&mut text, *exchange_id as u64);
            },
            DriverError::Handshake(what) => {
                push_text(&mut text, "handshake protocol error: ");
                push_text(&mut text, what);
            },
            DriverError::UnexpectedSecuredMessage(session_id) => {
                push_text(
                    &mut text,
                    "expected unsecured (session-id 0) message, got session id ",
                );
                push_decimal(&mut text, *session_id as u64);
            },
            DriverError::SessionEstablishmentFailed { general_code, protocol_code } => {
                push_text(&mut text, "session establishment rejected: general code ");
                push_decimal(&mut text, *general_code as u64);
                push_text(&mut text, ", protocol code 0x");
                push_padded_lower_hex(&mut text, *protocol_code as u64, 4);
            },
            DriverError::ReadTooLarge { limit } => {
                push_text(&mut text, "read exceeds ");
                push_text(&mut text, limit);
            },
            DriverError::Aborted(reason) => {
                push_text(&mut text, "commissioning aborted: ");
                push_text(&mut text, reason.as_str());
            },
        }
        proof {
            assert(text@ =~= driver_error_text(*self));
        }
        text
    }
}

/// The text for a refused session names the general code in base ten and the
/// protocol code in four digits of base sixteen.
pub proof fn law_refusal_names_codes(general_code: u16, protocol_code: u16)
    ensures
        driver_error_text(DriverError::SessionEstablishmentFailed { general_code, protocol_code })
            == "session establishment rejected: general code "@ + decimal(general_code as nat)
            + ", protocol code 0x"@ + padded_lower_hex(protocol_code as nat, 4),
{
}

} // verus!
