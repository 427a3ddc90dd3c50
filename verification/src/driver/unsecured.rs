//! Messages outside of any session, which handshakes run over.
//!
//! A frame is a message header with session number 0, a protocol header and the
//! payload in the clear. An exchange sends one frame and waits for the next one
//! of the peer, sending again while nothing is acknowledged.

use crate::driver::error::{DriverError, TransportFault};
use crate::driver::TransportReliability;
use crate::noc::error::system_random_fill;
use crate::tlv::laws::{lemma_le_bytes_len, lemma_le_roundtrip, lemma_pow256_values};
use crate::tlv::reader::read_le;
use crate::tlv::writer::{put_le, put_slice};
use crate::tlv::{le_bytes, le_value};
use vstd::prelude::*;
use vstd::slice::{slice_subrange, slice_to_vec};

verus! {

/// The opcode of an acknowledgement that stands alone.
pub const OPCODE_MRP_STANDALONE_ACK: u8 = 0x10;

/// The opcode of a status report.
pub const OPCODE_STATUS_REPORT: u8 = 0x40;

/// How long, in milliseconds, an exchange waits before it sends again.
pub const RETRANSMIT_MS: u64 = 300;

/// How long, in milliseconds, an exchange waits for an answer to what was
/// acknowledged.
pub const RESPONSE_TIMEOUT_MS: u64 = 30_000;

/// How often an exchange waits in vain before it gives up.
pub const MAX_ATTEMPTS: u8 = 5;

/// The protocol of a message.
#[derive(Debug, Clone, Copy, PartialEq, Eq, Structural)]
pub struct ProtocolId {
    /// The vendor that defines the protocol; 0 for the standard ones.
    pub vendor: u16,
    /// The number of the protocol.
    pub protocol: u16,
}

impl ProtocolId {
    /// The protocol of handshakes.
    pub open spec fn of_secure_channel() -> ProtocolId {
        ProtocolId { vendor: 0, protocol: 0 }
    }

    /// The protocol of handshakes.
    pub fn secure_channel() -> (id: ProtocolId)
        ensures
            id == Self::of_secure_channel(),
            id.vendor == 0 && id.protocol == 0,
    {
        ProtocolId { vendor: 0, protocol: 0 }
    }

    /// The protocol of the Interaction Model.
    pub fn interaction_model() -> (id: ProtocolId)
        ensures
            id == (ProtocolId { vendor: 0, protocol: 1 }),
    {
        ProtocolId { vendor: 0, protocol: 1 }
    }
}

/// A status report of a handshake.
#[derive(Debug, Clone, Copy, PartialEq, Eq, Structural)]
pub struct SecureChannelStatus {
    /// The general code; 0 for success.
    pub general_code: u16,
    /// The protocol that the next code belongs to.
    pub protocol_id: u32,
    /// The code of the protocol; 0 for an established session.
    pub protocol_code: u16,
}

impl SecureChannelStatus {
    /// Whether the report says that a session is established.
    pub open spec fn is_success(self) -> bool {
        self.general_code == 0 && self.protocol_id == 0 && self.protocol_code == 0
    }

    /// Whether the report says that a session is established.
    pub fn is_session_establishment_success(self) -> (success: bool)
        ensures
            success == self.is_success(),
            success <==> (self.general_code == 0 && self.protocol_id == 0 && self.protocol_code
                == 0),
    {
        self.general_code == 0 && self.protocol_id == 0 && self.protocol_code == 0
    }
}

/// A decoded message.
#[derive(Debug, Clone, PartialEq, Eq)]
pub struct UnsecuredMessage {
    /// The counter of the sender.
    pub message_counter: u32,
    /// The exchange.
    pub exchange_id: u16,
    /// The opcode.
    pub opcode: u8,
    /// The protocol.
    pub protocol_id: ProtocolId,
    /// Whether the sender started the exchange.
    pub is_initiator: bool,
    /// The counter that the message acknowledges.
    pub ack_counter: Option<u32>,
    /// The node that the sender gives as its own.
    pub source_node_id: Option<u64>,
    /// What stands behind the headers.
    pub payload: Vec<u8>,
}

/// The model of a message.
#[verifier::ext_equal]
pub struct MessageView {
    /// The counter of the sender.
    pub message_counter: u32,
    /// The exchange.
    pub exchange_id: u16,
    /// The opcode.
    pub opcode: u8,
    /// The protocol.
    pub protocol_id: ProtocolId,
    /// Whether the sender started the exchange.
    pub is_initiator: bool,
    /// The counter that the message acknowledges.
    pub ack_counter: Option<u32>,
    /// The node that the sender gives as its own.
    pub source_node_id: Option<u64>,
    /// What stands behind the headers.
    pub payload: Seq<u8>,
}

impl View for UnsecuredMessage {
    type V = MessageView;

    open spec fn view(&self) -> MessageView {
        MessageView {
            message_counter: self.message_counter,
            exchange_id: self.exchange_id,
            opcode: self.opcode,
            protocol_id: self.protocol_id,
            is_initiator: self.is_initiator,
            ack_counter: self.ack_counter,
            source_node_id: self.source_node_id,
            payload: self.payload@,
        }
    }
}

/// The bytes of an optional node.
pub open spec fn node_bytes(node: Option<u64>) -> Seq<u8> {
    match node {
        Some(n) => le_bytes(n as nat, 8),
        None => Seq::empty(),
    }
}

/// The bytes of a message header: flags, session 0, no security flags, the
/// counter and the source node.
pub open spec fn message_header(counter: u32, source: Option<u64>) -> Seq<u8> {
    seq![
        if source is Some {
            4u8
        } else {
            0u8
        },
        0u8,
        0u8,
        0u8,
    ] + le_bytes(counter as nat, 4) + node_bytes(source)
}

/// The flags of a protocol header: initiator 1, acknowledgement 2, reliable 4,
/// vendor 16.
pub open spec fn exchange_flags(initiator: bool, ack: bool, reliable: bool, vendor: bool) -> u8 {
    ((if initiator {
        1int
    } else {
        0
    }) + (if ack {
        2int
    } else {
        0
    }) + (if reliable {
        4int
    } else {
        0
    }) + (if vendor {
        16int
    } else {
        0
    })) as u8
}

/// The bytes of the vendor of a protocol; the standard one is left out.
pub open spec fn vendor_bytes(vendor: u16) -> Seq<u8> {
    if vendor == 0 {
        Seq::empty()
    } else {
        le_bytes(vendor as nat, 2)
    }
}

/// The bytes of an optional counter.
pub open spec fn ack_bytes(ack: Option<u32>) -> Seq<u8> {
    match ack {
        Some(counter) => le_bytes(counter as nat, 4),
        None => Seq::empty(),
    }
}

/// The bytes of a protocol header.
pub open spec fn protocol_header(m: MessageView, reliable: bool) -> Seq<u8> {
    seq![
        exchange_flags(
            m.is_initiator,
            m.ack_counter is Some,
            reliable,
            m.protocol_id.vendor != 0,
        ),
        m.opcode,
    ] + le_bytes(m.exchange_id as nat, 2) + le_bytes(m.protocol_id.protocol as nat, 2)
        + vendor_bytes(m.protocol_id.vendor) + ack_bytes(m.ack_counter)
}

/// The frame of a message.
pub open spec fn frame(m: MessageView, reliable: bool) -> Seq<u8> {
    message_header(m.message_counter, m.source_node_id) + protocol_header(m, reliable) + m.payload
}

/// Why a frame is not taken.
pub enum FrameFault {
    /// A header is refused.
    Header(TransportFault),
    /// The frame belongs to the given session.
    Secured(u16),
}

/// The length of the message header that starts a frame, or why it is refused.
/// The lowest two bits of the first byte give the length of a destination, the
/// next bit says whether there is a source, and the upper half is the version.
pub open spec fn message_header_len(bytes: Seq<u8>) -> Result<nat, TransportFault> {
    if bytes.len() < 8 {
        Err(TransportFault::Truncated)
    } else if bytes[0] >= 16 || bytes[0] % 4 == 3 || (bytes[3] / 32) % 2 == 1 {
        Err(TransportFault::Unsupported)
    } else {
        let source: nat = if (bytes[0] / 4) % 2 == 1 {
            8
        } else {
            0
        };
        let destination: nat = if bytes[0] % 4 == 1 {
            8
        } else if bytes[0] % 4 == 2 {
            2
        } else {
            0
        };
        if bytes.len() < 8 + source + destination {
            Err(TransportFault::Truncated)
        } else {
            Ok(8 + source + destination)
        }
    }
}

/// The length of the protocol header at the front of `bytes`, or why it is
/// refused.
pub open spec fn protocol_header_len(bytes: Seq<u8>) -> Result<nat, TransportFault> {
    if bytes.len() < 6 {
        Err(TransportFault::Truncated)
    } else if (bytes[0] / 8) % 2 == 1 {
        Err(TransportFault::Unsupported)
    } else {
        let vendor: nat = if (bytes[0] / 16) % 2 == 1 {
            2
        } else {
            0
        };
        let ack: nat = if (bytes[0] / 2) % 2 == 1 {
            4
        } else {
            0
        };
        if bytes.len() < 6 + vendor + ack {
            Err(TransportFault::Truncated)
        } else {
            Ok(6 + vendor + ack)
        }
    }
}

/// The message in a frame with the given counter and source, whose protocol
/// header and payload are `bytes`.
pub open spec fn message_of(counter: u32, source: Option<u64>, bytes: Seq<u8>, len: nat) -> MessageView {
    let vendor = (bytes[0] / 16) % 2 == 1;
    let ack = (bytes[0] / 2) % 2 == 1;
    let behind: int = if vendor {
        8
    } else {
        6
    };
    MessageView {
        message_counter: counter,
        exchange_id: le_value(bytes.subrange(2, 4)) as u16,
        opcode: bytes[1],
        protocol_id: ProtocolId {
            vendor: if vendor {
                le_value(bytes.subrange(6, 8)) as u16
            } else {
                0
            },
            protocol: le_value(bytes.subrange(4, 6)) as u16,
        },
        is_initiator: bytes[0] % 2 == 1,
        ack_counter: if ack {
            Some(le_value(bytes.subrange(behind, behind + 4)) as u32)
        } else {
            None
        },
        source_node_id: source,
        payload: bytes.skip(len as int),
    }
}

/// The message in a frame, or why it is not taken.
pub open spec fn unframe(bytes: Seq<u8>) -> Result<MessageView, FrameFault> {
    match message_header_len(bytes) {
        Err(e) => Err(FrameFault::Header(e)),
        Ok(head) => {
            let session = le_value(bytes.subrange(1, 3)) as u16;
            let rest = bytes.skip(head as int);
            if session != 0 {
                Err(FrameFault::Secured(session))
            } else {
                match protocol_header_len(rest) {
                    Err(e) => Err(FrameFault::Header(e)),
                    Ok(len) => Ok(
                        message_of(
                            le_value(bytes.subrange(4, 8)) as u32,
                            if (bytes[0] / 4) % 2 == 1 {
                                Some(le_value(bytes.subrange(8, 16)) as u64)
                            } else {
                                None
                            },
                            rest,
                            len,
                        ),
                    ),
                }
            }
        },
    }
}

/// The error for a frame that is not taken.
pub open spec fn frame_error(fault: FrameFault) -> DriverError {
    match fault {
        FrameFault::Header(e) => DriverError::Transport(e),
        FrameFault::Secured(session) => DriverError::UnexpectedSecuredMessage(session),
    }
}

/// Encodes a message.
pub fn encode_unsecured(
    message_counter: u32,
    exchange_id: u16,
    opcode: u8,
    protocol_id: ProtocolId,
    initiator: bool,
    reliable: bool,
    ack: Option<u32>,
    source_node_id: Option<u64>,
    app_payload: &[u8],
) -> (wire: Vec<u8>)
    ensures
        wire@ == frame(
            (MessageView {
                message_counter,
                exchange_id,
                opcode,
                protocol_id,
                is_initiator: initiator,
                ack_counter: ack,
                source_node_id,
                payload: app_payload@,
            }),
            reliable,
        ),
{
    let ghost m = MessageView {
        message_counter,
        exchange_id,
        opcode,
        protocol_id,
        is_initiator: initiator,
        ack_counter: ack,
        source_node_id,
        payload: app_payload@,
    };
    let mut wire: Vec<u8> = Vec::new();
    wire.push(
        if source_node_id.is_some() {
            4
        } else {
            0
        },
    );
    wire.push(0);
    wire.push(0);
    wire.push(0);
    put_le(&mut wire, message_counter as u64, 4);
    if let Some(node) = source_node_id {
        put_le(&mut wire, node, 8);
    }
    proof {
        assert(wire@ =~= message_header(message_counter, source_node_id));
    }
    let mut flags: u8 = 0;
    if initiator {
        flags = flags + 1;
    }
    if ack.is_some() {
        flags = flags + 2;
    }
    if reliable {
        flags = flags + 4;
    }
    if protocol_id.vendor != 0 {
        flags = flags + 16;
    }
    wire.push(flags);
    wire.push(opcode);
    put_le(&mut wire, exchange_id as u64, 2);
    put_le(&mut wire, protocol_id.protocol as u64, 2);
    if protocol_id.vendor != 0 {
        put_le(&mut wire, protocol_id.vendor as u64, 2);
    }
    if let Some(counter) = ack {
        put_le(&mut wire, counter as u64, 4);
    }
    proof {
        assert(wire@ =~= message_header(message_counter, source_node_id) + protocol_header(
            m,
            reliable,
        ));
    }
    put_slice(&mut wire, app_payload);
    wire
}

/// Decodes a message. A frame of a secured session is refused.
pub fn decode_unsecured(bytes: &[u8]) -> (r: Result<UnsecuredMessage, DriverError>)
    ensures
        match unframe(bytes@) {
            Ok(view) => r matches Ok(m) && m@ == view,
            Err(fault) => r == Err::<UnsecuredMessage, DriverError>(frame_error(fault)),
        },
{
    let total: usize = bytes.len();
    if total < 8 {
        return Err(DriverError::Transport(TransportFault::Truncated));
    }
    let flags = bytes[0];
    if flags >= 16 || flags % 4 == 3 || (bytes[3] / 32) % 2 == 1 {
        return Err(DriverError::Transport(TransportFault::Unsupported));
    }
    let sourced = (flags / 4) % 2 == 1;
    let mut head: usize = 8;
    if sourced {
        head = head + 8;
    }
    if flags % 4 == 1 {
        head = head + 8;
    } else if flags % 4 == 2 {
        head = head + 2;
    }
    if total < head {
        return Err(DriverError::Transport(TransportFault::Truncated));
    }
    proof {
        lemma_pow256_values();
    }
    let session = read_le(bytes, 1, 2) as u16;
    if session != 0 {
        return Err(DriverError::UnexpectedSecuredMessage(session));
    }
    let message_counter = read_le(bytes, 4, 4) as u32;
    let source_node_id: Option<u64> = if sourced {
        Some(read_le(bytes, 8, 8))
    } else {
        None
    };
    let rest = slice_subrange(bytes, head, total);
    proof {
        assert(rest@ =~= bytes@.skip(head as int));
    }
    let left: usize = rest.len();
    if left < 6 {
        return Err(DriverError::Transport(TransportFault::Truncated));
    }
    let exchange_flags = rest[0];
    if (exchange_flags / 8) % 2 == 1 {
        return Err(DriverError::Transport(TransportFault::Unsupported));
    }
    let vendored = (exchange_flags / 16) % 2 == 1;
    let acks = (exchange_flags / 2) % 2 == 1;
    let mut len: usize = 6;
    if vendored {
        len = len + 2;
    }
    let behind: usize = len;
    if acks {
        len = len + 4;
    }
    if left < len {
        return Err(DriverError::Transport(TransportFault::Truncated));
    }
    let vendor: u16 = if vendored {
        read_le(rest, 6, 2) as u16
    } else {
        0
    };
    let ack_counter: Option<u32> = if acks {
        Some(read_le(rest, behind, 4) as u32)
    } else {
        None
    };
    let payload = slice_to_vec(slice_subrange(rest, len, left));
    let m = UnsecuredMessage {
        message_counter,
        exchange_id: read_le(rest, 2, 2) as u16,
        opcode: rest[1],
        protocol_id: ProtocolId { vendor, protocol: read_le(rest, 4, 2) as u16 },
        is_initiator: exchange_flags % 2 == 1,
        ack_counter,
        source_node_id,
        payload,
    };
    proof {
        assert(m.payload@ =~= rest@.skip(len as int));
    }
    Ok(m)
}

/// The status report in a message, or the complaint about it.
pub open spec fn status_report(opcode: u8, payload: Seq<u8>) -> Result<
    SecureChannelStatus,
    DriverError,
> {
    if opcode != OPCODE_STATUS_REPORT {
        Err(
            DriverError::Handshake("expected a SecureChannel StatusReport to close the handshake"),
        )
    } else if payload.len() < 8 {
        Err(DriverError::Handshake("StatusReport body truncated"))
    } else {
        Ok(
            SecureChannelStatus {
                general_code: le_value(payload.subrange(0, 2)) as u16,
                protocol_id: le_value(payload.subrange(2, 6)) as u32,
                protocol_code: le_value(payload.subrange(6, 8)) as u16,
            },
        )
    }
}

/// Reads a message as the status report that closes a handshake.
pub fn parse_status_report(msg: &UnsecuredMessage) -> (r: Result<SecureChannelStatus, DriverError>)
    ensures
        r == status_report(msg.opcode, msg.payload@),
{
    if msg.opcode != OPCODE_STATUS_REPORT {
        return Err(
            DriverError::Handshake("expected a SecureChannel StatusReport to close the handshake"),
        );
    }
    if msg.payload.len() < 8 {
        return Err(DriverError::Handshake("StatusReport body truncated"));
    }
    proof {
        lemma_pow256_values();
    }
    let body = msg.payload.as_slice();
    Ok(
        SecureChannelStatus {
            general_code: read_le(body, 0, 2) as u16,
            protocol_id: read_le(body, 2, 4) as u32,
            protocol_code: read_le(body, 6, 2) as u16,
        },
    )
}

/// The objection against a message where a handshake message with the given
/// opcode is due. A status report in its place is a refusal by the peer.
pub open spec fn opcode_fault(m: MessageView, opcode: u8) -> Option<DriverError> {
    if m.protocol_id == ProtocolId::of_secure_channel() && m.opcode == opcode {
        None
    } else if m.protocol_id == ProtocolId::of_secure_channel() && m.opcode
        == OPCODE_STATUS_REPORT {
        match status_report(m.opcode, m.payload) {
            Err(e) => Some(e),
            Ok(status) => Some(
                DriverError::SessionEstablishmentFailed {
                    general_code: status.general_code,
                    protocol_code: status.protocol_code,
                },
            ),
        }
    } else {
        Some(DriverError::Handshake("unexpected opcode in session-establishment exchange"))
    }
}

/// Checks that a message is the handshake message with the given opcode.
pub fn require_handshake_opcode(msg: &UnsecuredMessage, opcode: u8) -> (r: Result<(), DriverError>)
    ensures
        match opcode_fault(msg@, opcode) {
            None => r == Ok::<(), DriverError>(()),
            Some(e) => r == Err::<(), DriverError>(e),
        },
{
    let handshake = msg.protocol_id.vendor == 0 && msg.protocol_id.protocol == 0;
    if handshake && msg.opcode == opcode {
        return Ok(());
    }
    if handshake && msg.opcode == OPCODE_STATUS_REPORT {
        return match parse_status_report(msg) {
            Err(e) => Err(e),
            Ok(status) => Err(
                DriverError::SessionEstablishmentFailed {
                    general_code: status.general_code,
                    protocol_code: status.protocol_code,
                },
            ),
        };
    }
    Err(DriverError::Handshake("unexpected opcode in session-establishment exchange"))
}

/// An exchange of a handshake: it sends a message, waits for the next one of the
/// peer, and sends again while nothing comes.
#[derive(Debug, Clone)]
pub struct UnsecuredExchange {
    counter: u32,
    exchange_id: u16,
    source_node_id: u64,
    max_attempts: u8,
    last_consumed_peer_counter: Option<u32>,
    reliability: TransportReliability,
}

/// The model of an exchange.
#[verifier::ext_equal]
pub struct ExchangeView {
    /// The counter of the next message.
    pub counter: u32,
    /// The exchange.
    pub exchange_id: u16,
    /// The node that the messages give as their source.
    pub source_node_id: u64,
    /// How often the exchange waits in vain before it gives up.
    pub max_attempts: u8,
    /// The counter of the last message of the peer that was taken.
    pub last: Option<u32>,
    /// Who makes the messages reliable.
    pub reliability: TransportReliability,
}

impl View for UnsecuredExchange {
    type V = ExchangeView;

    closed spec fn view(&self) -> ExchangeView {
        ExchangeView {
            counter: self.counter,
            exchange_id: self.exchange_id,
            source_node_id: self.source_node_id,
            max_attempts: self.max_attempts,
            last: self.last_consumed_peer_counter,
            reliability: self.reliability,
        }
    }
}

/// A message that waits for its answer.
#[derive(Debug, Clone)]
pub struct PendingSend {
    wire: Vec<u8>,
    expected_opcode: u8,
    attempts: u8,
    acked: bool,
    sent: bool,
}

/// The model of a message that waits for its answer.
#[verifier::ext_equal]
pub struct PendingView {
    /// The frame of the message.
    pub wire: Seq<u8>,
    /// The opcode of the answer.
    pub expected_opcode: u8,
    /// How often the exchange waited in vain.
    pub attempts: u8,
    /// Whether the peer acknowledged the message.
    pub acked: bool,
    /// Whether the message was sent at all.
    pub sent: bool,
}

impl View for PendingSend {
    type V = PendingView;

    closed spec fn view(&self) -> PendingView {
        PendingView {
            wire: self.wire@,
            expected_opcode: self.expected_opcode,
            attempts: self.attempts,
            acked: self.acked,
            sent: self.sent,
        }
    }
}

/// What comes of a packet.
#[derive(Debug, Clone)]
pub enum Reception {
    /// It is not the answer; the exchange goes on.
    Waiting,
    /// It is the answer.
    Delivered(UnsecuredMessage),
    /// It ends the exchange.
    Failed(DriverError),
}

/// The model of what comes of a packet.
pub enum ReceptionView {
    /// It has nothing to do with the exchange, or repeats something.
    Skipped,
    /// It acknowledges the message.
    Acked,
    /// It is the answer.
    Delivered(MessageView),
    /// It ends the exchange.
    Failed(FrameFault),
}

/// Whether a packet belongs to a secured session.
pub open spec fn is_secured(packet: Seq<u8>) -> bool {
    packet.len() >= 3 && (packet[1] != 0 || packet[2] != 0)
}

/// What comes of a packet while an answer with the given opcode is due. Frames
/// of sessions, of other exchanges and of other protocols are skipped, and so are
/// repetitions and handshake messages that are not due, unless they report a
/// status.
pub open spec fn receive(ex: ExchangeView, expected_opcode: u8, packet: Seq<u8>) -> ReceptionView {
    if is_secured(packet) {
        ReceptionView::Skipped
    } else {
        match unframe(packet) {
            Err(fault) => ReceptionView::Failed(fault),
            Ok(m) => {
                let handshake = m.protocol_id == ProtocolId::of_secure_channel();
                if m.exchange_id != ex.exchange_id {
                    ReceptionView::Skipped
                } else if handshake && m.opcode == OPCODE_MRP_STANDALONE_ACK {
                    ReceptionView::Acked
                } else if ex.last is Some && m.message_counter <= ex.last->Some_0 {
                    ReceptionView::Skipped
                } else if handshake && (m.opcode == expected_opcode || m.opcode
                    == OPCODE_STATUS_REPORT) {
                    ReceptionView::Delivered(m)
                } else {
                    ReceptionView::Skipped
                }
            },
        }
    }
}

/// Whether a message is one that an exchange may deliver: a handshake message on
/// it that was not taken before, with the opcode that is due or with a status.
pub open spec fn is_due(ex: ExchangeView, expected_opcode: u8, m: MessageView) -> bool {
    &&& m.exchange_id == ex.exchange_id
    &&& m.protocol_id == ProtocolId::of_secure_channel()
    &&& m.opcode == expected_opcode || m.opcode == OPCODE_STATUS_REPORT
    &&& m.opcode != OPCODE_MRP_STANDALONE_ACK
    &&& ex.last is Some ==> m.message_counter > ex.last->Some_0
}

/// Whether a message is sent, or sent again, before the exchange waits.
pub open spec fn must_transmit(ex: ExchangeView, pending: PendingView) -> bool {
    !pending.sent || (ex.reliability == TransportReliability::Mrp && !pending.acked)
}

/// Whether a wait in vain cannot be helped by sending again.
pub open spec fn settled(ex: ExchangeView, pending: PendingView) -> bool {
    pending.acked || ex.reliability == TransportReliability::TransportProvides
}

/// The attempts after one more.
pub open spec fn one_more(attempts: u8) -> u8 {
    if attempts < 255 {
        (attempts + 1) as u8
    } else {
        255
    }
}

/// What an exchange does next.
#[derive(Debug, Clone, Copy, PartialEq, Eq, Structural)]
pub struct SendPlan {
    /// Whether to send the frame first.
    pub transmit: bool,
    /// How long, in milliseconds, to wait for a packet.
    pub wait_ms: u64,
}

/// What to do before the next packet.
pub open spec fn send_plan(ex: ExchangeView, pending: PendingView) -> SendPlan {
    SendPlan {
        transmit: must_transmit(ex, pending),
        wait_ms: if settled(ex, pending) {
            RESPONSE_TIMEOUT_MS
        } else {
            RETRANSMIT_MS
        },
    }
}

impl PendingSend {
    /// The frame of the message.
    pub fn wire(&self) -> (wire: &[u8])
        ensures
            wire@ == self@.wire,
    {
        self.wire.as_slice()
    }
}

/// The counter and the node that twelve random bytes give: a number from 1 to
/// 2^28, and one from 1 to 2^60 - 1.
pub open spec fn ephemeral(seed: Seq<u8>) -> (u32, u64) {
    let node = le_value(seed.subrange(4, 12)) % 0x1000_0000_0000_0000;
    (
        (le_value(seed.subrange(0, 4)) % 0x1000_0000 + 1) as u32,
        if node == 0 {
            1
        } else {
            node as u64
        },
    )
}

/// The message that an exchange sends.
pub open spec fn sent_message(
    ex: ExchangeView,
    opcode: u8,
    ack: Option<u32>,
    payload: Seq<u8>,
) -> MessageView {
    MessageView {
        message_counter: ex.counter,
        exchange_id: ex.exchange_id,
        opcode,
        protocol_id: ProtocolId::of_secure_channel(),
        is_initiator: true,
        ack_counter: ack,
        source_node_id: Some(ex.source_node_id),
        payload,
    }
}

/// An exchange before its first message.
pub open spec fn fresh_exchange(
    counter: u32,
    exchange_id: u16,
    source_node_id: u64,
    reliability: TransportReliability,
) -> ExchangeView {
    ExchangeView {
        counter,
        exchange_id,
        source_node_id,
        max_attempts: MAX_ATTEMPTS,
        last: None,
        reliability,
    }
}

/// An exchange after it has framed a message.
pub open spec fn after_framing(ex: ExchangeView) -> ExchangeView {
    ExchangeView { counter: ex.counter.wrapping_add(1), ..ex }
}

/// A message that an exchange is about to send.
pub open spec fn begun(
    ex: ExchangeView,
    opcode: u8,
    expected_opcode: u8,
    payload: Seq<u8>,
    ack: Option<u32>,
) -> PendingView {
    PendingView {
        wire: frame(
            sent_message(ex, opcode, ack, payload),
            ex.reliability == TransportReliability::Mrp,
        ),
        expected_opcode,
        attempts: 0,
        acked: false,
        sent: false,
    }
}

/// The frame that acknowledges a message alone, where the transport needs one.
pub open spec fn ack_frame(ex: ExchangeView, peer_counter: u32) -> Option<Seq<u8>> {
    match ex.reliability {
        TransportReliability::TransportProvides => None,
        TransportReliability::Mrp => Some(
            frame(
                sent_message(ex, OPCODE_MRP_STANDALONE_ACK, Some(peer_counter), Seq::empty()),
                false,
            ),
        ),
    }
}

/// An exchange after a packet came.
pub open spec fn after_packet(
    ex: ExchangeView,
    expected_opcode: u8,
    packet: Seq<u8>,
) -> ExchangeView {
    match receive(ex, expected_opcode, packet) {
        ReceptionView::Delivered(m) => ExchangeView { last: Some(m.message_counter), ..ex },
        _ => ex,
    }
}

impl UnsecuredExchange {
    /// An exchange with the given counter, number and source node over a
    /// transport that loses packets.
    pub fn new(initial_counter: u32, exchange_id: u16, source_node_id: u64) -> (exchange: Self)
        ensures
            exchange@ == (ExchangeView {
                counter: initial_counter,
                exchange_id,
                source_node_id,
                max_attempts: MAX_ATTEMPTS,
                last: None,
                reliability: TransportReliability::Mrp,
            }),
            exchange@ == fresh_exchange(
                initial_counter,
                exchange_id,
                source_node_id,
                TransportReliability::Mrp,
            ),
    {
        UnsecuredExchange {
            counter: initial_counter,
            exchange_id,
            source_node_id,
            max_attempts: MAX_ATTEMPTS,
            last_consumed_peer_counter: None,
            reliability: TransportReliability::Mrp,
        }
    }

    /// An exchange whose counter and source node come from random bytes.
    pub fn from_seed(exchange_id: u16, reliability: TransportReliability, seed: &[u8]) -> (exchange:
        Self)
        requires
            seed@.len() == 12,
        ensures
            exchange@ == (ExchangeView {
                counter: ephemeral(seed@).0,
                exchange_id,
                source_node_id: ephemeral(seed@).1,
                max_attempts: MAX_ATTEMPTS,
                last: None,
                reliability,
            }),
            exchange@ == fresh_exchange(
                ephemeral(seed@).0,
                exchange_id,
                ephemeral(seed@).1,
                reliability,
            ),
    {
        proof {
            lemma_pow256_values();
        }
        let counter = read_le(seed, 0, 4) as u32;
        let node = read_le(seed, 4, 8);
        assert(counter & 0x0FFF_FFFFu32 == counter % 0x1000_0000u32) by (bit_vector);
        assert(node & 0x0FFF_FFFF_FFFF_FFFFu64 == node % 0x1000_0000_0000_0000u64) by (bit_vector);
        let masked: u64 = node & 0x0FFF_FFFF_FFFF_FFFF;
        let mut exchange = UnsecuredExchange::new(
            (counter & 0x0FFF_FFFF) + 1,
            exchange_id,
            if masked == 0 {
                1
            } else {
                masked
            },
        );
        exchange.reliability = reliability;
        exchange
    }

    /// An exchange with a random counter and a random source node. Fails if the
    /// system has no random bytes.
    pub fn new_ephemeral_with(exchange_id: u16, reliability: TransportReliability) -> (r: Result<
        Self,
        DriverError,
    >)
        ensures
            match r {
                Ok(exchange) => exists|seed: Seq<u8>|
                    seed.len() == 12 && exchange@ == (ExchangeView {
                        counter: (#[trigger] ephemeral(seed)).0,
                        exchange_id,
                        source_node_id: ephemeral(seed).1,
                        max_attempts: MAX_ATTEMPTS,
                        last: None,
                        reliability,
                    }),
                Err(e) => e == DriverError::Handshake(
                    "system CSPRNG failure seeding unsecured session",
                ),
            },
    {
        let mut seed: Vec<u8> = vec![0; 12];
        if !system_random_fill(&mut seed) {
            return Err(DriverError::Handshake("system CSPRNG failure seeding unsecured session"));
        }
        let exchange = UnsecuredExchange::from_seed(exchange_id, reliability, seed.as_slice());
        Ok(exchange)
    }

    /// An exchange with a random counter and a random source node over a
    /// transport that loses packets.
    pub fn new_ephemeral(exchange_id: u16) -> (r: Result<Self, DriverError>)
        ensures
            match r {
                Ok(exchange) => exists|seed: Seq<u8>|
                    seed.len() == 12 && exchange@ == (ExchangeView {
                        counter: (#[trigger] ephemeral(seed)).0,
                        exchange_id,
                        source_node_id: ephemeral(seed).1,
                        max_attempts: MAX_ATTEMPTS,
                        last: None,
                        reliability: TransportReliability::Mrp,
                    }),
                Err(e) => e == DriverError::Handshake(
                    "system CSPRNG failure seeding unsecured session",
                ),
            },
    {
        UnsecuredExchange::new_ephemeral_with(exchange_id, TransportReliability::Mrp)
    }

    /// The frame that acknowledges a message of the peer, unless the transport
    /// makes acknowledgements superfluous.
    pub fn standalone_ack(&mut self, peer_counter: u32) -> (wire: Option<Vec<u8>>)
        ensures
            match old(self)@.reliability {
                TransportReliability::TransportProvides => wire is None && final(self)@ == old(
                    self,
                )@,
                TransportReliability::Mrp => {
                    &&& wire matches Some(w)
                    &&& w@ == frame(
                        sent_message(
                            old(self)@,
                            OPCODE_MRP_STANDALONE_ACK,
                            Some(peer_counter),
                            Seq::empty(),
                        ),
                        false,
                    )
                    &&& final(self)@ == (ExchangeView {
                        counter: old(self)@.counter.wrapping_add(1),
                        ..old(self)@
                    })
                },
            },
            match ack_frame(old(self)@, peer_counter) {
                Some(view) => wire matches Some(w) && w@ == view && final(self)@ == after_framing(
                    old(self)@,
                ),
                None => wire is None && final(self)@ == old(self)@,
            },
    {
        match self.reliability {
            TransportReliability::TransportProvides => None,
            TransportReliability::Mrp => {
                let counter = self.counter;
                self.counter = counter.wrapping_add(1);
                let empty: Vec<u8> = Vec::new();
                let wire = encode_unsecured(
                    counter,
                    self.exchange_id,
                    OPCODE_MRP_STANDALONE_ACK,
                    ProtocolId::secure_channel(),
                    true,
                    false,
                    Some(peer_counter),
                    Some(self.source_node_id),
                    empty.as_slice(),
                );
                proof {
                    assert(empty@ =~= Seq::<u8>::empty());
                }
                Some(wire)
            },
        }
    }

    /// Makes the frame of a handshake message and takes a counter for it. Its
    /// answer is the message with the expected opcode; `ack` is the counter of
    /// the message that it answers itself.
    pub fn begin(
        &mut self,
        opcode: u8,
        expected_opcode: u8,
        app_payload: &[u8],
        ack: Option<u32>,
    ) -> (pending: PendingSend)
        ensures
            pending@ == (PendingView {
                wire: frame(
                    sent_message(old(self)@, opcode, ack, app_payload@),
                    old(self)@.reliability == TransportReliability::Mrp,
                ),
                expected_opcode,
                attempts: 0,
                acked: false,
                sent: false,
            }),
            final(self)@ == (ExchangeView {
                counter: old(self)@.counter.wrapping_add(1),
                ..old(self)@
            }),
            pending@ == begun(old(self)@, opcode, expected_opcode, app_payload@, ack),
            final(self)@ == after_framing(old(self)@),
    {
        let counter = self.counter;
        self.counter = counter.wrapping_add(1);
        let reliable = match self.reliability {
            TransportReliability::Mrp => true,
            TransportReliability::TransportProvides => false,
        };
        let wire = encode_unsecured(
            counter,
            self.exchange_id,
            opcode,
            ProtocolId::secure_channel(),
            true,
            reliable,
            ack,
            Some(self.source_node_id),
            app_payload,
        );
        PendingSend { wire, expected_opcode, attempts: 0, acked: false, sent: false }
    }

    /// What to do before the next packet: whether to send the frame, and how
    /// long to wait.
    pub fn plan(&self, pending: &mut PendingSend) -> (plan: SendPlan)
        ensures
            plan == send_plan(self@, old(pending)@),
            final(pending)@ == (PendingView { sent: true, ..old(pending)@ }),
    {
        let mrp = match self.reliability {
            TransportReliability::Mrp => true,
            TransportReliability::TransportProvides => false,
        };
        let transmit = !pending.sent || (mrp && !pending.acked);
        let wait_ms: u64 = if pending.acked || !mrp {
            RESPONSE_TIMEOUT_MS
        } else {
            RETRANSMIT_MS
        };
        pending.sent = true;
        SendPlan { transmit, wait_ms }
    }

    /// Takes a packet. What it delivers is the handshake message that is due or
    /// a status report.
    pub fn on_packet(&mut self, pending: &mut PendingSend, packet: &[u8]) -> (reception: Reception)
        ensures
            reception matches Reception::Delivered(m) ==> is_due(
                old(self)@,
                old(pending)@.expected_opcode,
                m@,
            ),
            match receive(old(self)@, old(pending)@.expected_opcode, packet@) {
                ReceptionView::Skipped => {
                    &&& reception is Waiting
                    &&& final(self)@ == old(self)@
                    &&& final(pending)@ == old(pending)@
                },
                ReceptionView::Acked => {
                    &&& reception is Waiting
                    &&& final(self)@ == old(self)@
                    &&& final(pending)@ == (PendingView { acked: true, ..old(pending)@ })
                },
                ReceptionView::Delivered(view) => {
                    &&& reception matches Reception::Delivered(m)
                    &&& m@ == view
                    &&& final(self)@ == (ExchangeView {
                        last: Some(view.message_counter),
                        ..old(self)@
                    })
                    &&& final(pending)@ == old(pending)@
                },
                ReceptionView::Failed(fault) => {
                    &&& reception == Reception::Failed(frame_error(fault))
                    &&& final(self)@ == old(self)@
                    &&& final(pending)@ == old(pending)@
                },
            },
            match step(old(self)@, old(pending)@, SendEvent::Packet(packet@)) {
                Progress::Going(next) => reception is Waiting && final(pending)@ == next,
                Progress::Done(view) => reception matches Reception::Delivered(m) && m@ == view,
                Progress::Failed => reception is Failed,
            },
            final(self)@ == after_packet(old(self)@, old(pending)@.expected_opcode, packet@),
    {
        if packet.len() >= 3 && (packet[1] != 0 || packet[2] != 0) {
            return Reception::Waiting;
        }
        let msg = match decode_unsecured(packet) {
            Err(e) => {
                return Reception::Failed(e);
            },
            Ok(msg) => msg,
        };
        if msg.exchange_id != self.exchange_id {
            return Reception::Waiting;
        }
        let handshake = msg.protocol_id.vendor == 0 && msg.protocol_id.protocol == 0;
        if handshake && msg.opcode == OPCODE_MRP_STANDALONE_ACK {
            pending.acked = true;
            return Reception::Waiting;
        }
        if let Some(last) = self.last_consumed_peer_counter {
            if msg.message_counter <= last {
                return Reception::Waiting;
            }
        }
        if !handshake || (msg.opcode != pending.expected_opcode && msg.opcode
            != OPCODE_STATUS_REPORT) {
            return Reception::Waiting;
        }
        self.last_consumed_peer_counter = Some(msg.message_counter);
        Reception::Delivered(msg)
    }

    /// Takes note that no packet came in time. What was acknowledged, and what
    /// was tried often enough, has failed.
    pub fn on_timeout(&self, pending: &mut PendingSend) -> (failure: Option<DriverError>)
        ensures
            if settled(self@, old(pending)@) {
                &&& failure == Some(DriverError::Timeout { exchange_id: self@.exchange_id })
                &&& final(pending)@ == old(pending)@
            } else {
                let attempts = one_more(old(pending)@.attempts);
                &&& failure == (if attempts >= self@.max_attempts {
                    Some(DriverError::Timeout { exchange_id: self@.exchange_id })
                } else {
                    None::<DriverError>
                })
                &&& final(pending)@ == (PendingView { attempts, ..old(pending)@ })
            },
            match step(self@, old(pending)@, SendEvent::Timeout) {
                Progress::Going(next) => failure is None && final(pending)@ == next,
                _ => failure == Some(DriverError::Timeout { exchange_id: self@.exchange_id }),
            },
    {
        let provided = match self.reliability {
            TransportReliability::Mrp => false,
            TransportReliability::TransportProvides => true,
        };
        if pending.acked || provided {
            return Some(DriverError::Timeout { exchange_id: self.exchange_id });
        }
        if pending.attempts < 255 {
            pending.attempts = pending.attempts + 1;
        }
        if pending.attempts >= self.max_attempts {
            return Some(DriverError::Timeout { exchange_id: self.exchange_id });
        }
        None
    }
}

/// What happens to an exchange that waits.
pub enum SendEvent {
    /// A packet comes.
    Packet(Seq<u8>),
    /// No packet comes in time.
    Timeout,
}

/// How far an exchange is.
pub enum Progress {
    /// It still waits.
    Going(PendingView),
    /// It has its answer.
    Done(MessageView),
    /// It has failed.
    Failed,
}

/// One step of an exchange that waits.
pub open spec fn step(ex: ExchangeView, pending: PendingView, event: SendEvent) -> Progress {
    match event {
        SendEvent::Packet(packet) => match receive(ex, pending.expected_opcode, packet) {
            ReceptionView::Skipped => Progress::Going(pending),
            ReceptionView::Acked => Progress::Going(PendingView { acked: true, ..pending }),
            ReceptionView::Delivered(m) => Progress::Done(m),
            ReceptionView::Failed(_) => Progress::Failed,
        },
        SendEvent::Timeout => if settled(ex, pending) || one_more(pending.attempts)
            >= ex.max_attempts {
            Progress::Failed
        } else {
            Progress::Going(PendingView { attempts: one_more(pending.attempts), ..pending })
        },
    }
}

/// How far an exchange is after some events.
pub open spec fn progress(ex: ExchangeView, pending: PendingView, events: Seq<SendEvent>) -> Progress
    decreases events.len(),
{
    if events.len() == 0 {
        Progress::Going(pending)
    } else {
        match step(ex, pending, events[0]) {
            Progress::Going(next) => progress(ex, next, events.skip(1)),
            over => over,
        }
    }
}

/// How often no packet came in time.
pub open spec fn timeouts(events: Seq<SendEvent>) -> nat
    decreases events.len(),
{
    if events.len() == 0 {
        0
    } else {
        (if events[0] is Timeout {
            1nat
        } else {
            0
        }) + timeouts(events.skip(1))
    }
}

/// No exchange waits for ever: whatever packets come in between, it is over
/// once it has waited in vain as often as it may.
pub proof fn law_exchange_ends(ex: ExchangeView, pending: PendingView, events: Seq<SendEvent>)
    requires
        timeouts(events) > 0,
        pending.attempts + timeouts(events) >= ex.max_attempts,
    ensures
        !(progress(ex, pending, events) is Going),
    decreases events.len(),
{
    if let Progress::Going(next) = step(ex, pending, events[0]) {
        let rest = events.skip(1);
        if timeouts(rest) > 0 {
            law_exchange_ends(ex, next, rest);
        }
    }
}

/// The answer of an exchange is always a fresh handshake message on that
/// exchange: the one that is due or a status report, never an acknowledgement.
pub proof fn law_answer_is_due(ex: ExchangeView, pending: PendingView, events: Seq<SendEvent>)
    ensures
        progress(ex, pending, events) matches Progress::Done(m) ==> {
            &&& is_due(ex, pending.expected_opcode, m)
            &&& m.exchange_id == ex.exchange_id
            &&& m.protocol_id.vendor == 0 && m.protocol_id.protocol == 0
            &&& m.opcode == pending.expected_opcode || m.opcode == 0x40
            &&& m.opcode != 0x10
            &&& ex.last matches Some(last) ==> m.message_counter > last
        },
    decreases events.len(),
{
    if events.len() > 0 {
        if let Progress::Going(next) = step(ex, pending, events[0]) {
            law_answer_is_due(ex, next, events.skip(1));
        }
    }
}

/// The answers of the messages that an exchange sends one after the other, up to
/// the first that it has none for. Each message comes with the events while it
/// waits.
pub open spec fn answers(ex: ExchangeView, sends: Seq<(PendingView, Seq<SendEvent>)>) -> Seq<
    MessageView,
>
    decreases sends.len(),
{
    if sends.len() == 0 {
        Seq::empty()
    } else {
        match progress(ex, sends[0].0, sends[0].1) {
            Progress::Done(m) => seq![m] + answers(
                ExchangeView { last: Some(m.message_counter), ..ex },
                sends.skip(1),
            ),
            _ => Seq::empty(),
        }
    }
}

/// No message of the peer is taken twice: the counters of the answers rise.
pub proof fn law_answers_are_fresh(
    ex: ExchangeView,
    sends: Seq<(PendingView, Seq<SendEvent>)>,
    i: int,
    j: int,
)
    requires
        0 <= i < j < answers(ex, sends).len(),
    ensures
        answers(ex, sends)[i].message_counter < answers(ex, sends)[j].message_counter,
        ex.last is Some ==> ex.last->Some_0 < answers(ex, sends)[i].message_counter,
    decreases sends.len(),
{
    lemma_answer_is_fresh(ex, sends, i);
    let m = answers(ex, sends)[0];
    let next = ExchangeView { last: Some(m.message_counter), ..ex };
    let rest = sends.skip(1);
    assert(answers(ex, sends) =~= seq![m] + answers(next, rest));
    if i > 0 {
        law_answers_are_fresh(next, rest, i - 1, j - 1);
    } else {
        lemma_answer_is_fresh(next, rest, j - 1);
    }
}

/// Every answer is newer than what was taken before.
proof fn lemma_answer_is_fresh(
    ex: ExchangeView,
    sends: Seq<(PendingView, Seq<SendEvent>)>,
    i: int,
)
    requires
        0 <= i < answers(ex, sends).len(),
    ensures
        ex.last is Some ==> ex.last->Some_0 < answers(ex, sends)[i].message_counter,
    decreases sends.len(),
{
    law_answer_is_due(ex, sends[0].0, sends[0].1);
    let m = answers(ex, sends)[0];
    let next = ExchangeView { last: Some(m.message_counter), ..ex };
    assert(answers(ex, sends) =~= seq![m] + answers(next, sends.skip(1)));
    if i > 0 {
        lemma_answer_is_fresh(next, sends.skip(1), i - 1);
    }
}

/// A frame holds the message that was put into it.
pub proof fn law_frame_roundtrip(m: MessageView, reliable: bool)
    ensures
        unframe(frame(m, reliable)) == Ok::<MessageView, FrameFault>(m),
{
    let bytes = frame(m, reliable);
    let head = message_header(m.message_counter, m.source_node_id);
    let rest = protocol_header(m, reliable) + m.payload;
    lemma_le_bytes_len(m.message_counter as nat, 4);
    lemma_pow256_values();
    lemma_le_roundtrip(m.message_counter as nat, 4);
    if m.source_node_id is Some {
        lemma_le_bytes_len(m.source_node_id->Some_0 as nat, 8);
        lemma_le_roundtrip(m.source_node_id->Some_0 as nat, 8);
        assert(bytes.subrange(8, 16) =~= le_bytes(m.source_node_id->Some_0 as nat, 8));
    }
    assert(bytes =~= head + rest);
    assert(bytes.skip(head.len() as int) =~= rest);
    assert(bytes.subrange(1, 3) =~= seq![0u8, 0u8]);
    assert(le_value(seq![0u8, 0u8]) == 0) by {
        reveal_with_fuel(le_value, 3);
        assert(seq![0u8, 0u8].skip(1) =~= seq![0u8]);
    }
    assert(bytes.subrange(4, 8) =~= le_bytes(m.message_counter as nat, 4));
    assert(message_header_len(bytes) == Ok::<nat, TransportFault>(head.len()));
    lemma_protocol_header(m, reliable);
}

/// A protocol header is read back.
proof fn lemma_protocol_header(m: MessageView, reliable: bool)
    ensures
        protocol_header_len(protocol_header(m, reliable) + m.payload) == Ok::<nat, TransportFault>(
            protocol_header(m, reliable).len(),
        ),
        message_of(
            m.message_counter,
            m.source_node_id,
            protocol_header(m, reliable) + m.payload,
            protocol_header(m, reliable).len(),
        ) == m,
{
    let head = protocol_header(m, reliable);
    let bytes = head + m.payload;
    let vendor = m.protocol_id.vendor;
    lemma_pow256_values();
    lemma_le_bytes_len(m.exchange_id as nat, 2);
    lemma_le_roundtrip(m.exchange_id as nat, 2);
    lemma_le_bytes_len(m.protocol_id.protocol as nat, 2);
    lemma_le_roundtrip(m.protocol_id.protocol as nat, 2);
    lemma_le_bytes_len(vendor as nat, 2);
    lemma_le_roundtrip(vendor as nat, 2);
    assert(bytes.subrange(2, 4) =~= le_bytes(m.exchange_id as nat, 2));
    assert(bytes.subrange(4, 6) =~= le_bytes(m.protocol_id.protocol as nat, 2));
    let behind: int = if vendor != 0 {
        assert(bytes.subrange(6, 8) =~= le_bytes(vendor as nat, 2));
        8
    } else {
        6
    };
    if m.ack_counter is Some {
        let counter = m.ack_counter->Some_0;
        lemma_le_bytes_len(counter as nat, 4);
        lemma_le_roundtrip(counter as nat, 4);
        assert(bytes.subrange(behind, behind + 4) =~= le_bytes(counter as nat, 4));
    }
    assert(bytes.skip(head.len() as int) =~= m.payload);
}

/// Whatever the random bytes are, the counter is a number of 28 bits and one,
/// and the node is an operational one: neither is 0.
pub proof fn law_ephemeral_in_range(seed: Seq<u8>)
    ensures
        1 <= ephemeral(seed).0 <= 0x1000_0000,
        1 <= ephemeral(seed).1 < 0x1000_0000_0000_0000,
{
}

/// Where everything stands in a frame: flags, session 0, no security flags, the
/// counter, the source if there is one; then the flags of the exchange, the
/// opcode, the exchange, the protocol, the vendor if there is one, the counter
/// that is acknowledged if there is one, and the payload. Numbers have their
/// lowest byte first.
pub proof fn law_frame_layout(m: MessageView, reliable: bool)
    ensures
        ({
            let f = frame(m, reliable);
            let h: int = if m.source_node_id is Some {
                16
            } else {
                8
            };
            let a: int = if m.protocol_id.vendor != 0 {
                h + 8
            } else {
                h + 6
            };
            let end: int = if m.ack_counter is Some {
                a + 4
            } else {
                a
            };
            &&& f.len() == end + m.payload.len()
            &&& f[0] == (if m.source_node_id is Some {
                4u8
            } else {
                0u8
            })
            &&& f[1] == 0 && f[2] == 0 && f[3] == 0
            &&& f[4] + 0x100 * f[5] + 0x1_0000 * f[6] + 0x100_0000 * f[7] == m.message_counter
            &&& m.source_node_id matches Some(node) ==> f[8] + 0x100 * f[9] + 0x1_0000 * f[10]
                + 0x100_0000 * f[11] + 0x1_0000_0000 * f[12] + 0x100_0000_0000 * f[13]
                + 0x1_0000_0000_0000 * f[14] + 0x100_0000_0000_0000 * f[15] == node
            &&& f[h] < 32 && (f[h] / 8) % 2 == 0
            &&& (f[h] % 2 == 1 <==> m.is_initiator)
            &&& ((f[h] / 2) % 2 == 1 <==> m.ack_counter is Some)
            &&& ((f[h] / 4) % 2 == 1 <==> reliable)
            &&& ((f[h] / 16) % 2 == 1 <==> m.protocol_id.vendor != 0)
            &&& f[h + 1] == m.opcode
            &&& f[h + 2] + 0x100 * f[h + 3] == m.exchange_id
            &&& f[h + 4] + 0x100 * f[h + 5] == m.protocol_id.protocol
            &&& m.protocol_id.vendor != 0 ==> f[h + 6] + 0x100 * f[h + 7] == m.protocol_id.vendor
            &&& m.ack_counter matches Some(counter) ==> f[a] + 0x100 * f[a + 1] + 0x1_0000 * f[a
                + 2] + 0x100_0000 * f[a + 3] == counter
            &&& f.skip(end) == m.payload
        }),
{
    let f = frame(m, reliable);
    let head = message_header(m.message_counter, m.source_node_id);
    let proto = protocol_header(m, reliable);
    let h = head.len() as int;
    lemma_le4(m.message_counter);
    lemma_le2(m.exchange_id);
    lemma_le2(m.protocol_id.protocol);
    lemma_le2(m.protocol_id.vendor);
    if let Some(node) = m.source_node_id {
        lemma_le8(node);
        assert(node_bytes(m.source_node_id) == le_bytes(node as nat, 8));
        assert(f[8] == le_bytes(node as nat, 8)[0]);
        assert(f[9] == le_bytes(node as nat, 8)[1]);
        assert(f[10] == le_bytes(node as nat, 8)[2]);
        assert(f[11] == le_bytes(node as nat, 8)[3]);
        assert(f[12] == le_bytes(node as nat, 8)[4]);
        assert(f[13] == le_bytes(node as nat, 8)[5]);
        assert(f[14] == le_bytes(node as nat, 8)[6]);
        assert(f[15] == le_bytes(node as nat, 8)[7]);
    }
    assert(f[4] == le_bytes(m.message_counter as nat, 4)[0]);
    assert(f[5] == le_bytes(m.message_counter as nat, 4)[1]);
    assert(f[6] == le_bytes(m.message_counter as nat, 4)[2]);
    assert(f[7] == le_bytes(m.message_counter as nat, 4)[3]);
    assert(f[h] == proto[0]);
    assert(f[h + 1] == proto[1]);
    assert(f[h + 2] == le_bytes(m.exchange_id as nat, 2)[0]);
    assert(f[h + 3] == le_bytes(m.exchange_id as nat, 2)[1]);
    assert(f[h + 4] == le_bytes(m.protocol_id.protocol as nat, 2)[0]);
    assert(f[h + 5] == le_bytes(m.protocol_id.protocol as nat, 2)[1]);
    let a: int = if m.protocol_id.vendor != 0 {
        assert(f[h + 6] == le_bytes(m.protocol_id.vendor as nat, 2)[0]);
        assert(f[h + 7] == le_bytes(m.protocol_id.vendor as nat, 2)[1]);
        h + 8
    } else {
        h + 6
    };
    if let Some(counter) = m.ack_counter {
        lemma_le4(counter);
        assert(f[a] == le_bytes(counter as nat, 4)[0]);
        assert(f[a + 1] == le_bytes(counter as nat, 4)[1]);
        assert(f[a + 2] == le_bytes(counter as nat, 4)[2]);
        assert(f[a + 3] == le_bytes(counter as nat, 4)[3]);
    }
    assert(f.skip((head.len() + proto.len()) as int) =~= m.payload);
}

/// The two bytes of a number.
proof fn lemma_le2(n: u16)
    ensures
        le_bytes(n as nat, 2).len() == 2,
        le_bytes(n as nat, 2)[0] + 0x100 * le_bytes(n as nat, 2)[1] == n,
{
    reveal_with_fuel(le_bytes, 3);
}

/// The four bytes of a number.
proof fn lemma_le4(n: u32)
    ensures
        le_bytes(n as nat, 4).len() == 4,
        le_bytes(n as nat, 4)[0] + 0x100 * le_bytes(n as nat, 4)[1] + 0x1_0000 * le_bytes(
            n as nat,
            4,
        )[2] + 0x100_0000 * le_bytes(n as nat, 4)[3] == n,
{
    reveal_with_fuel(le_bytes, 5);
}

/// The eight bytes of a number.
proof fn lemma_le8(n: u64)
    ensures
        le_bytes(n as nat, 8).len() == 8,
        ({
            let b = le_bytes(n as nat, 8);
            b[0] + 0x100 * b[1] + 0x1_0000 * b[2] + 0x100_0000 * b[3] + 0x1_0000_0000 * b[4]
                + 0x100_0000_0000 * b[5] + 0x1_0000_0000_0000 * b[6] + 0x100_0000_0000_0000 * b[7]
                == n
        }),
{
    reveal_with_fuel(le_bytes, 9);
}

/// What comes of the frame of a message, over all messages: an acknowledgement
/// of the own exchange counts as one, a fresh handshake message of the own
/// exchange that is due or reports a status is delivered as it is, and everything
/// else is skipped.
pub proof fn law_frame_reception(
    ex: ExchangeView,
    expected_opcode: u8,
    m: MessageView,
    reliable: bool,
)
    ensures
        ({
            let got = receive(ex, expected_opcode, frame(m, reliable));
            let ours = m.exchange_id == ex.exchange_id && m.protocol_id.vendor == 0
                && m.protocol_id.protocol == 0;
            let fresh = ex.last matches Some(last) ==> m.message_counter > last;
            if ours && m.opcode == 0x10 {
                got is Acked
            } else if ours && fresh && (m.opcode == expected_opcode || m.opcode == 0x40) {
                got == ReceptionView::Delivered(m)
            } else {
                got is Skipped
            }
        }),
{
    law_frame_roundtrip(m, reliable);
    law_frame_layout(m, reliable);
}

/// A packet of a session has nothing to do with an exchange outside of sessions.
pub proof fn law_secured_packets_are_skipped(ex: ExchangeView, expected_opcode: u8, packet: Seq<u8>)
    requires
        packet.len() >= 3,
        packet[1] != 0 || packet[2] != 0,
    ensures
        receive(ex, expected_opcode, packet) is Skipped,
{
}

/// A frame is sent once over a reliable transport; over another it is sent again
/// until it is acknowledged. What is acknowledged, or needs no acknowledgement,
/// is not sent again after a wait in vain either: the exchange fails.
pub proof fn law_transmission(ex: ExchangeView, pending: PendingView)
    ensures
        !pending.sent ==> must_transmit(ex, pending),
        pending.sent ==> (must_transmit(ex, pending) <==> ex.reliability
            == TransportReliability::Mrp && !pending.acked),
        step(ex, pending, SendEvent::Timeout) is Failed <==> (pending.acked || ex.reliability
            == TransportReliability::TransportProvides || pending.attempts + 1 >= ex.max_attempts
            || pending.attempts == 255),
        step(ex, pending, SendEvent::Timeout) matches Progress::Going(next) ==> next.attempts
            == pending.attempts + 1 && next.acked == pending.acked && next.expected_opcode
            == pending.expected_opcode && next.wire == pending.wire,
{
}

/// What a report says: the general code, the protocol and its code stand in its
/// first eight bytes. It reports success exactly if all of them are 0.
pub proof fn law_report_bytes(opcode: u8, payload: Seq<u8>)
    ensures
        status_report(opcode, payload) is Ok <==> opcode == 0x40 && payload.len() >= 8,
        status_report(opcode, payload) matches Ok(status) ==> {
            &&& status.general_code == payload[0] + 0x100 * payload[1]
            &&& status.protocol_id == payload[2] + 0x100 * payload[3] + 0x1_0000 * payload[4]
                + 0x100_0000 * payload[5]
            &&& status.protocol_code == payload[6] + 0x100 * payload[7]
            &&& (status.is_success() <==> forall|i: int|
                0 <= i < 8 ==> #[trigger] payload[i] == 0)
        },
{
    if opcode == 0x40 && payload.len() >= 8 {
        let general = payload.subrange(0, 2);
        let protocol = payload.subrange(2, 6);
        let code = payload.subrange(6, 8);
        lemma_le_value2(general);
        lemma_le_value4(protocol);
        lemma_le_value2(code);
        let status = status_report(opcode, payload)->Ok_0;
        if status.is_success() {
            assert forall|i: int| 0 <= i < 8 implies #[trigger] payload[i] == 0 by {
                assert(general[0] == payload[0] && general[1] == payload[1]);
                assert(protocol[0] == payload[2] && protocol[1] == payload[3]);
                assert(protocol[2] == payload[4] && protocol[3] == payload[5]);
                assert(code[0] == payload[6] && code[1] == payload[7]);
            }
        }
    }
}

/// The number of two bytes.
proof fn lemma_le_value2(bytes: Seq<u8>)
    requires
        bytes.len() == 2,
    ensures
        le_value(bytes) == bytes[0] + 0x100 * bytes[1],
{
    reveal_with_fuel(le_value, 3);
}

/// The number of four bytes.
proof fn lemma_le_value4(bytes: Seq<u8>)
    requires
        bytes.len() == 4,
    ensures
        le_value(bytes) == bytes[0] + 0x100 * bytes[1] + 0x1_0000 * bytes[2] + 0x100_0000
            * bytes[3],
{
    reveal_with_fuel(le_value, 5);
}

/// A message passes where a handshake message is due exactly if it is that
/// message of the handshake protocol; a status report in its place fails with
/// the codes that it reports.
pub proof fn law_handshake_message(m: MessageView, opcode: u8)
    ensures
        opcode_fault(m, opcode) is None <==> m.protocol_id.vendor == 0 && m.protocol_id.protocol
            == 0 && m.opcode == opcode,
        m.protocol_id.vendor == 0 && m.protocol_id.protocol == 0 && m.opcode == 0x40 && opcode
            != 0x40 && m.payload.len() >= 8 ==> {
            &&& opcode_fault(m, opcode) matches Some(
                DriverError::SessionEstablishmentFailed { general_code, protocol_code },
            )
            &&& general_code == m.payload[0] + 0x100 * m.payload[1]
            &&& protocol_code == m.payload[6] + 0x100 * m.payload[7]
        },
{
    law_report_bytes(m.opcode, m.payload);
}

/// Which counter and which node random bytes give: the first four, without the
/// upper four bits, and 1; and the other eight, without the upper four bits,
/// where 1 stands for 0.
pub proof fn law_ephemeral_bytes(seed: Seq<u8>)
    requires
        seed.len() == 12,
    ensures
        ephemeral(seed).0 == 1 + seed[0] + 0x100 * seed[1] + 0x1_0000 * seed[2] + 0x100_0000 * (
        seed[3] % 16),
        ({
            let node = seed[4] + 0x100 * seed[5] + 0x1_0000 * seed[6] + 0x100_0000 * seed[7]
                + 0x1_0000_0000 * seed[8] + 0x100_0000_0000 * seed[9] + 0x1_0000_0000_0000
                * seed[10] + 0x100_0000_0000_0000 * (seed[11] % 16);
            ephemeral(seed).1 == (if node == 0 {
                1
            } else {
                node
            })
        }),
{
    let first = seed.subrange(0, 4);
    let second = seed.subrange(4, 12);
    lemma_le_value4(first);
    lemma_le_value8(second);
    lemma_masked_counter((seed[0] + 0x100 * seed[1] + 0x1_0000 * seed[2]) as nat, seed[3]);
    lemma_masked_node(
        (seed[4] + 0x100 * seed[5] + 0x1_0000 * seed[6] + 0x100_0000 * seed[7] + 0x1_0000_0000
            * seed[8] + 0x100_0000_0000 * seed[9] + 0x1_0000_0000_0000 * seed[10]) as nat,
        seed[11],
    );
}

/// The number of eight bytes.
proof fn lemma_le_value8(b: Seq<u8>)
    requires
        b.len() == 8,
    ensures
        le_value(b) == b[0] + 0x100 * b[1] + 0x1_0000 * b[2] + 0x100_0000 * b[3] + 0x1_0000_0000
            * b[4] + 0x100_0000_0000 * b[5] + 0x1_0000_0000_0000 * b[6] + 0x100_0000_0000_0000
            * b[7],
{
    reveal_with_fuel(le_value, 9);
}

/// The upper four of 32 bits dropped.
proof fn lemma_masked_counter(low: nat, top: u8)
    requires
        low < 0x100_0000,
    ensures
        (low + 0x100_0000 * top) as nat % 0x1000_0000 == low + 0x100_0000 * (top % 16),
{
    let rest = (low + 0x100_0000 * (top % 16)) as nat;
    assert(low + 0x100_0000 * top == rest + 0x1000_0000 * (top / 16));
}

/// The upper four of 64 bits dropped.
proof fn lemma_masked_node(low: nat, top: u8)
    requires
        low < 0x100_0000_0000_0000,
    ensures
        (low + 0x100_0000_0000_0000 * top) as nat % 0x1000_0000_0000_0000 == low
            + 0x100_0000_0000_0000 * (top % 16),
{
    let rest = (low + 0x100_0000_0000_0000 * (top % 16)) as nat;
    assert(low + 0x100_0000_0000_0000 * top == rest + 0x1000_0000_0000_0000 * (top / 16));
}

/// The peer reads in a frame what the exchange was told to send: a handshake
/// message of the initiator, on the exchange, with the next counter, the opcode,
/// the counter that it acknowledges and the payload, from the ephemeral node.
pub proof fn law_sent_message_is_read(
    ex: ExchangeView,
    opcode: u8,
    ack: Option<u32>,
    payload: Seq<u8>,
    reliable: bool,
)
    ensures
        ({
            let read = unframe(frame(sent_message(ex, opcode, ack, payload), reliable));
            &&& read matches Ok(m)
            &&& m.message_counter == ex.counter
            &&& m.exchange_id == ex.exchange_id
            &&& m.opcode == opcode
            &&& m.protocol_id.vendor == 0 && m.protocol_id.protocol == 0
            &&& m.is_initiator
            &&& m.ack_counter == ack
            &&& m.source_node_id == Some(ex.source_node_id)
            &&& m.payload == payload
        }),
{
    law_frame_roundtrip(sent_message(ex, opcode, ack, payload), reliable);
}

/// A frame is sent before the first wait and, unless it is acknowledged or the
/// transport is reliable by itself, before each later one. Where only the answer
/// is waited for, the wait is long; where the frame may have to be sent again, it
/// is short.
pub proof fn law_send_plan(ex: ExchangeView, pending: PendingView)
    ensures
        send_plan(ex, pending).transmit <==> !pending.sent || (ex.reliability
            == TransportReliability::Mrp && !pending.acked),
        send_plan(ex, pending).wait_ms == (if pending.acked || ex.reliability
            == TransportReliability::TransportProvides {
            30_000int
        } else {
            300
        }),
{
}

/// What a packet does to an exchange that waits: one that acknowledges only marks
/// the frame, one that is skipped changes nothing, and one that is delivered is the
/// answer.
pub proof fn law_packets_move_the_exchange(
    ex: ExchangeView,
    pending: PendingView,
    packet: Seq<u8>,
)
    ensures
        step(ex, pending, SendEvent::Packet(packet)) matches Progress::Going(next) ==> {
            &&& next.attempts == pending.attempts
            &&& next.wire == pending.wire
            &&& next.expected_opcode == pending.expected_opcode
            &&& next.sent == pending.sent
            &&& next.acked == (pending.acked || receive(ex, pending.expected_opcode, packet)
                == ReceptionView::Acked)
        },
        step(ex, pending, SendEvent::Packet(packet)) matches Progress::Done(m) ==> receive(
            ex,
            pending.expected_opcode,
            packet,
        ) == ReceptionView::Delivered(m),
{
}

/// An exchange starts with what it was given, has seen no message, and gives up
/// after five waits in vain.
pub proof fn law_fresh_exchange(
    counter: u32,
    exchange_id: u16,
    source_node_id: u64,
    reliability: TransportReliability,
)
    ensures
        ({
            let ex = fresh_exchange(counter, exchange_id, source_node_id, reliability);
            &&& ex.counter == counter
            &&& ex.exchange_id == exchange_id
            &&& ex.source_node_id == source_node_id
            &&& ex.reliability == reliability
            &&& ex.max_attempts == 5
            &&& ex.last is None
        }),
{
}

/// Each message takes the next counter, which starts over after the highest one;
/// nothing else of the exchange changes.
pub proof fn law_counters_go_up(ex: ExchangeView)
    ensures
        ex.counter < 0xFFFF_FFFF ==> after_framing(ex).counter == ex.counter + 1,
        ex.counter == 0xFFFF_FFFF ==> after_framing(ex).counter == 0,
        after_framing(ex).exchange_id == ex.exchange_id,
        after_framing(ex).source_node_id == ex.source_node_id,
        after_framing(ex).max_attempts == ex.max_attempts,
        after_framing(ex).last == ex.last,
        after_framing(ex).reliability == ex.reliability,
{
}

/// A message that is about to be sent is framed with the opcode, the payload and
/// the acknowledgement that were asked for, under the counter of the exchange. It
/// asks for an acknowledgement exactly where the transport may lose it, waits for
/// the answer that is due, and was neither sent nor acknowledged.
pub proof fn law_message_is_begun(
    ex: ExchangeView,
    opcode: u8,
    expected_opcode: u8,
    payload: Seq<u8>,
    ack: Option<u32>,
)
    ensures
        ({
            let pending = begun(ex, opcode, expected_opcode, payload, ack);
            let m = sent_message(ex, opcode, ack, payload);
            &&& ex.reliability == TransportReliability::Mrp ==> pending.wire == frame(m, true)
            &&& ex.reliability == TransportReliability::TransportProvides ==> pending.wire
                == frame(m, false)
            &&& pending.expected_opcode == expected_opcode
            &&& pending.attempts == 0
            &&& !pending.acked
            &&& !pending.sent
        }),
{
}

/// A message is acknowledged alone exactly where the transport may lose it: by an
/// empty message with opcode 0x10 that names its counter and asks for no
/// acknowledgement.
pub proof fn law_ack_frame(ex: ExchangeView, peer_counter: u32)
    ensures
        ack_frame(ex, peer_counter) is Some <==> ex.reliability == TransportReliability::Mrp,
        ack_frame(ex, peer_counter) matches Some(wire) ==> wire == frame(
            sent_message(ex, 0x10, Some(peer_counter), Seq::empty()),
            false,
        ),
{
}

/// An exchange takes note of the counter of a message that it delivers, and of
/// nothing else.
pub proof fn law_delivered_counter_is_noted(
    ex: ExchangeView,
    expected_opcode: u8,
    packet: Seq<u8>,
)
    ensures
        ({
            let after = after_packet(ex, expected_opcode, packet);
            &&& after.counter == ex.counter
            &&& after.exchange_id == ex.exchange_id
            &&& after.source_node_id == ex.source_node_id
            &&& after.max_attempts == ex.max_attempts
            &&& after.reliability == ex.reliability
            &&& (receive(ex, expected_opcode, packet) matches ReceptionView::Delivered(m)
                ==> after.last == Some(m.message_counter))
            &&& !(receive(ex, expected_opcode, packet) is Delivered) ==> after.last == ex.last
        }),
        receive(ex, expected_opcode, packet) is Delivered ==> !(receive(
            after_packet(ex, expected_opcode, packet),
            expected_opcode,
            packet,
        ) is Delivered),
{
}

} // verus!
