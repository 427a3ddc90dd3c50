//! The handshakes that set up sessions.
//!
//! A handshake is a sequence of legs: the driver sends a message with one opcode
//! and waits for an answer with another. The last answer is a status report.
//! What the messages hold is the business of the cryptography behind them; which
//! message is sent when, and what its answer means, is decided here.

use crate::driver::error::DriverError;
use crate::driver::unsecured::{
    law_handshake_message, law_report_bytes, opcode_fault, parse_status_report, require_handshake_opcode, status_report, MessageView,
    UnsecuredMessage,
};
use crate::driver::TransportReliability;
use vstd::prelude::*;

verus! {

/// The opcode of the request for parameters.
pub const OP_PBKDF_PARAM_REQUEST: u8 = 0x20;

/// The opcode of the parameters.
pub const OP_PBKDF_PARAM_RESPONSE: u8 = 0x21;

/// The opcode of the first share.
pub const OP_PASE_PAKE1: u8 = 0x22;

/// The opcode of the second share.
pub const OP_PASE_PAKE2: u8 = 0x23;

/// The opcode of the confirmation.
pub const OP_PASE_PAKE3: u8 = 0x24;

/// The opcode of the first message of an operational session.
pub const OP_SIGMA1: u8 = 0x30;

/// The opcode of its answer.
pub const OP_SIGMA2: u8 = 0x31;

/// The opcode of the third message of an operational session.
pub const OP_SIGMA3: u8 = 0x32;

/// The opcode of the report that closes a handshake.
pub const OP_STATUS_REPORT: u8 = 0x40;

/// The exchange of a handshake with a passcode.
pub const PASE_EXCHANGE_ID: u16 = 1;

/// The exchange of a handshake for an operational session.
pub const CASE_EXCHANGE_ID: u16 = 1;

/// The kinds of handshake.
#[derive(Debug, Clone, Copy, PartialEq, Eq, Structural)]
pub enum HandshakeKind {
    /// With the passcode of the device.
    Pase,
    /// With operational certificates.
    Case,
}

/// What is sent, and what is due as its answer.
#[derive(Debug, Clone, Copy, PartialEq, Eq, Structural)]
pub struct Leg {
    /// The opcode to send.
    pub opcode: u8,
    /// The opcode of the answer.
    pub expected_opcode: u8,
}

/// The legs of a handshake.
pub open spec fn legs(kind: HandshakeKind) -> Seq<Leg> {
    match kind {
        HandshakeKind::Pase => seq![
            Leg { opcode: OP_PBKDF_PARAM_REQUEST, expected_opcode: OP_PBKDF_PARAM_RESPONSE },
            Leg { opcode: OP_PASE_PAKE1, expected_opcode: OP_PASE_PAKE2 },
            Leg { opcode: OP_PASE_PAKE3, expected_opcode: OP_STATUS_REPORT },
        ],
        HandshakeKind::Case => seq![
            Leg { opcode: OP_SIGMA1, expected_opcode: OP_SIGMA2 },
            Leg { opcode: OP_SIGMA3, expected_opcode: OP_STATUS_REPORT },
        ],
    }
}

/// A handshake.
#[derive(Debug, Clone)]
pub struct Handshake {
    kind: HandshakeKind,
    answered: u8,
    ack: Option<u32>,
}

/// The model of a handshake.
#[verifier::ext_equal]
pub struct HandshakeView {
    /// Its kind.
    pub kind: HandshakeKind,
    /// How many legs are answered.
    pub answered: nat,
    /// The counter of the last answer.
    pub ack: Option<u32>,
}

impl View for Handshake {
    type V = HandshakeView;

    closed spec fn view(&self) -> HandshakeView {
        HandshakeView { kind: self.kind, answered: self.answered as nat, ack: self.ack }
    }
}

/// What an answer means.
#[derive(Debug)]
pub enum HandshakeStep {
    /// The payload goes to the cryptography, which makes the next message.
    Proceed,
    /// The peer refuses or is out of step. Its message is acknowledged, whether
    /// that succeeds or not, and the handshake ends with the error.
    Reject {
        /// The counter to acknowledge.
        ack: u32,
        /// The error.
        error: DriverError,
    },
    /// The handshake is closed. The report is acknowledged; the outcome counts
    /// if that succeeds.
    Close {
        /// The counter to acknowledge.
        ack: u32,
        /// Whether a session is established.
        outcome: Result<(), DriverError>,
    },
    /// The handshake ends with the error.
    Fail(DriverError),
}

/// The outcome of a handshake that was closed with the given report.
pub open spec fn closing(m: MessageView) -> Result<(), DriverError> {
    match status_report(m.opcode, m.payload) {
        Err(e) => Err(e),
        Ok(status) => if status.is_success() {
            Ok(())
        } else {
            Err(
                DriverError::SessionEstablishmentFailed {
                    general_code: status.general_code,
                    protocol_code: status.protocol_code,
                },
            )
        },
    }
}

impl Handshake {
    /// Some leg is not answered yet.
    pub open spec fn wf(&self) -> bool {
        self@.answered < legs(self@.kind).len()
    }

    /// A handshake before its first leg.
    pub fn new(kind: HandshakeKind) -> (handshake: Self)
        ensures
            handshake.wf(),
            handshake@ == (HandshakeView { kind, answered: 0, ack: None }),
    {
        Handshake { kind, answered: 0, ack: None }
    }

    /// The leg that is due.
    pub fn leg(&self) -> (leg: Leg)
        requires
            self.wf(),
        ensures
            leg == legs(self@.kind)[self@.answered as int],
    {
        match self.kind {
            HandshakeKind::Pase => if self.answered == 0 {
                Leg { opcode: OP_PBKDF_PARAM_REQUEST, expected_opcode: OP_PBKDF_PARAM_RESPONSE }
            } else if self.answered == 1 {
                Leg { opcode: OP_PASE_PAKE1, expected_opcode: OP_PASE_PAKE2 }
            } else {
                Leg { opcode: OP_PASE_PAKE3, expected_opcode: OP_STATUS_REPORT }
            },
            HandshakeKind::Case => if self.answered == 0 {
                Leg { opcode: OP_SIGMA1, expected_opcode: OP_SIGMA2 }
            } else {
                Leg { opcode: OP_SIGMA3, expected_opcode: OP_STATUS_REPORT }
            },
        }
    }

    /// The counter that the message of the leg acknowledges: that of the answer
    /// before.
    pub fn ack(&self) -> (ack: Option<u32>)
        ensures
            ack == self@.ack,
    {
        self.ack
    }

    /// Takes the answer to the leg that is due.
    pub fn on_answer(&mut self, msg: &UnsecuredMessage) -> (step: HandshakeStep)
        requires
            old(self).wf(),
        ensures
            final(self).wf(),
            match answer(old(self)@, msg@) {
                AnswerView::Proceed(next) => step is Proceed && final(self)@ == next,
                AnswerView::Reject(error) => step == (HandshakeStep::Reject {
                    ack: msg.message_counter,
                    error,
                }) && final(self)@ == old(self)@,
                AnswerView::Close(outcome) => step == (HandshakeStep::Close {
                    ack: msg.message_counter,
                    outcome,
                }) && final(self)@ == old(self)@,
                AnswerView::Fail(error) => step == HandshakeStep::Fail(error) && final(self)@
                    == old(self)@,
            },
    {
        let leg = self.leg();
        let last = match self.kind {
            HandshakeKind::Pase => self.answered == 2,
            HandshakeKind::Case => self.answered == 1,
        };
        if last {
            match parse_status_report(msg) {
                Err(e) => HandshakeStep::Fail(e),
                Ok(status) => if status.is_session_establishment_success() {
                    HandshakeStep::Close { ack: msg.message_counter, outcome: Ok(()) }
                } else {
                    HandshakeStep::Close {
                        ack: msg.message_counter,
                        outcome: Err(
                            DriverError::SessionEstablishmentFailed {
                                general_code: status.general_code,
                                protocol_code: status.protocol_code,
                            },
                        ),
                    }
                },
            }
        } else {
            match require_handshake_opcode(msg, leg.expected_opcode) {
                Err(error) => HandshakeStep::Reject { ack: msg.message_counter, error },
                Ok(()) => {
                    self.answered = self.answered + 1;
                    self.ack = Some(msg.message_counter);
                    HandshakeStep::Proceed
                },
            }
        }
    }
}

/// The model of what an answer means.
pub enum AnswerView {
    /// The handshake goes on with the next leg.
    Proceed(HandshakeView),
    /// It ends with an acknowledgement and an error.
    Reject(DriverError),
    /// It ends with an acknowledgement and an outcome.
    Close(Result<(), DriverError>),
    /// It ends with an error.
    Fail(DriverError),
}

/// What an answer to the leg that is due means.
pub open spec fn answer(h: HandshakeView, m: MessageView) -> AnswerView {
    let leg = legs(h.kind)[h.answered as int];
    if h.answered + 1 == legs(h.kind).len() {
        if status_report(m.opcode, m.payload) is Err {
            AnswerView::Fail(status_report(m.opcode, m.payload)->Err_0)
        } else {
            AnswerView::Close(closing(m))
        }
    } else {
        match opcode_fault(m, leg.expected_opcode) {
            Some(e) => AnswerView::Reject(e),
            None => AnswerView::Proceed(
                HandshakeView {
                    answered: h.answered + 1,
                    ack: Some(m.message_counter),
                    ..h
                },
            ),
        }
    }
}

/// Whether some answers establish a session.
pub open spec fn establishes(h: HandshakeView, answers: Seq<MessageView>) -> bool
    decreases answers.len(),
{
    if answers.len() == 0 {
        false
    } else {
        match answer(h, answers[0]) {
            AnswerView::Proceed(next) => establishes(next, answers.skip(1)),
            AnswerView::Close(outcome) => outcome is Ok,
            _ => false,
        }
    }
}

/// A session is established only after every message of the handshake was
/// answered by the one that is due, and by a report of success at the end.
pub proof fn law_session_needs_every_leg(h: HandshakeView, answers: Seq<MessageView>)
    requires
        h.answered < legs(h.kind).len(),
        establishes(h, answers),
    ensures
        answers.len() >= legs(h.kind).len() - h.answered,
        forall|i: int|
            0 <= i < legs(h.kind).len() - h.answered - 1 ==> opcode_fault(
                #[trigger] answers[i],
                legs(h.kind)[h.answered + i].expected_opcode,
            ) is None,
        closing(answers[legs(h.kind).len() - h.answered - 1]) == Ok::<(), DriverError>(()),
        forall|i: int|
            0 <= i < legs(h.kind).len() - h.answered - 1 ==> {
                let m = #[trigger] answers[i];
                m.protocol_id.vendor == 0 && m.protocol_id.protocol == 0 && m.opcode == legs(
                    h.kind,
                )[h.answered + i].expected_opcode
            },
        ({
            let last = answers[legs(h.kind).len() - h.answered - 1];
            &&& last.opcode == 0x40
            &&& last.payload.len() >= 8
            &&& forall|i: int| 0 <= i < 8 ==> #[trigger] last.payload[i] == 0
        }),
    decreases answers.len(),
{
    law_report_bytes(answers[0].opcode, answers[0].payload);
    law_handshake_message(answers[0], legs(h.kind)[h.answered as int].expected_opcode);
    if h.answered + 1 < legs(h.kind).len() {
        match answer(h, answers[0]) {
            AnswerView::Proceed(next) => {
                let rest = answers.skip(1);
                law_session_needs_every_leg(next, rest);
                assert forall|i: int| 0 <= i < legs(h.kind).len() - h.answered - 1 implies opcode_fault(
                    #[trigger] answers[i],
                    legs(h.kind)[h.answered + i].expected_opcode,
                ) is None by {
                    if i > 0 {
                        assert(answers[i] == rest[i - 1]);
                        assert(next.answered + (i - 1) == h.answered + i);
                    }
                }
                assert forall|i: int| 0 <= i < legs(h.kind).len() - h.answered - 1 implies {
                    let m = #[trigger] answers[i];
                    m.protocol_id.vendor == 0 && m.protocol_id.protocol == 0 && m.opcode == legs(
                        h.kind,
                    )[h.answered + i].expected_opcode
                } by {
                    if i > 0 {
                        assert(answers[i] == rest[i - 1]);
                        assert(next.answered + (i - 1) == h.answered + i);
                    }
                }
            },
            _ => {},
        }
    }
}

/// Which messages a handshake consists of. With a passcode: the parameters are
/// asked for and given, the shares are exchanged, the confirmation is sent. With
/// certificates: two messages are exchanged and a third is sent. The report of a
/// status answers the last one.
pub proof fn law_legs()
    ensures
        legs(HandshakeKind::Pase).len() == 3,
        legs(HandshakeKind::Case).len() == 2,
        forall|kind: HandshakeKind, i: int|
            0 <= i < legs(kind).len() ==> {
                let leg = #[trigger] legs(kind)[i];
                let first: int = if kind == HandshakeKind::Pase {
                    0x20
                } else {
                    0x30
                };
                &&& leg.opcode == first + 2 * i
                &&& leg.expected_opcode == (if i + 1 == legs(kind).len() {
                    0x40
                } else {
                    first + 2 * i + 1
                })
            },
{
}

/// A handshake whose messages are answered one by one by those that are due, and
/// at the end by a report of success, establishes a session.
pub proof fn law_complete_handshake_establishes(h: HandshakeView, answers: Seq<MessageView>)
    requires
        h.answered < legs(h.kind).len(),
        answers.len() == legs(h.kind).len() - h.answered,
        forall|i: int|
            0 <= i < answers.len() - 1 ==> {
                let m = #[trigger] answers[i];
                m.protocol_id.vendor == 0 && m.protocol_id.protocol == 0 && m.opcode == legs(
                    h.kind,
                )[h.answered + i].expected_opcode
            },
        answers.last().opcode == 0x40,
        answers.last().payload.len() >= 8,
        forall|i: int| 0 <= i < 8 ==> #[trigger] answers.last().payload[i] == 0,
    ensures
        establishes(h, answers),
    decreases answers.len(),
{
    law_report_bytes(answers[0].opcode, answers[0].payload);
    law_handshake_message(answers[0], legs(h.kind)[h.answered as int].expected_opcode);
    if answers.len() == 1 {
        assert(answers[0] == answers.last());
    } else {
        let next = HandshakeView {
            answered: h.answered + 1,
            ack: Some(answers[0].message_counter),
            ..h
        };
        assert(answer(h, answers[0]) == AnswerView::Proceed(next));
        let rest = answers.skip(1);
        assert(rest.last() == answers.last());
        assert forall|i: int| 0 <= i < rest.len() - 1 implies {
            let m = #[trigger] rest[i];
            m.protocol_id.vendor == 0 && m.protocol_id.protocol == 0 && m.opcode == legs(
                next.kind,
            )[next.answered + i].expected_opcode
        } by {
            assert(rest[i] == answers[i + 1]);
        }
        law_complete_handshake_establishes(next, rest);
    }
}

/// What an answer does to a handshake: it goes on to the next leg, which
/// acknowledges the answer; or it ends. A last answer that is a report ends it
/// with success if its codes are 0, and else with the codes that it reports.
pub proof fn law_answer(h: HandshakeView, m: MessageView)
    requires
        h.answered < legs(h.kind).len(),
    ensures
        answer(h, m) matches AnswerView::Proceed(next) ==> {
            &&& next.kind == h.kind
            &&& next.answered == h.answered + 1
            &&& next.ack == Some(m.message_counter)
        },
        answer(h, m) is Proceed || answer(h, m) is Reject <==> h.answered + 1 < legs(h.kind).len(),
        answer(h, m) matches AnswerView::Close(outcome) ==> match outcome {
            Ok(_) => m.payload[0] == 0 && m.payload[1] == 0 && m.payload[6] == 0 && m.payload[7]
                == 0,
            Err(e) => {
                &&& e matches DriverError::SessionEstablishmentFailed { general_code, protocol_code }
                &&& general_code == m.payload[0] + 0x100 * m.payload[1]
                &&& protocol_code == m.payload[6] + 0x100 * m.payload[7]
                &&& exists|i: int| 0 <= i < 8 && #[trigger] m.payload[i] != 0
            },
        },
{
    law_report_bytes(m.opcode, m.payload);
}

/// What to register once a handshake with a passcode is closed.
#[derive(Debug, Clone, Copy, PartialEq, Eq, Structural)]
pub struct PaseRegistration {
    /// The number of the session at the peer.
    pub peer_session_id: u16,
    /// Whether the session leaves reliability to the transport.
    pub transport_reliable: bool,
}

/// What to register for a closed handshake with a passcode, given the number that
/// the peer gave.
pub open spec fn pase_registration(
    responder_session_id: Option<u16>,
    reliability: TransportReliability,
) -> Result<PaseRegistration, DriverError> {
    match responder_session_id {
        None => Err(DriverError::Handshake("PASE negotiation produced no responder session id")),
        Some(peer_session_id) => Ok(
            PaseRegistration {
                peer_session_id,
                transport_reliable: reliability == TransportReliability::TransportProvides,
            },
        ),
    }
}

/// What to register once a handshake with a passcode is closed. The peer must
/// have given a number for the session.
pub fn conclude_pase(responder_session_id: Option<u16>, reliability: TransportReliability) -> (r:
    Result<PaseRegistration, DriverError>)
    ensures
        r == pase_registration(responder_session_id, reliability),
{
    match responder_session_id {
        None => Err(DriverError::Handshake("PASE negotiation produced no responder session id")),
        Some(peer_session_id) => Ok(
            PaseRegistration {
                peer_session_id,
                transport_reliable: match reliability {
                    TransportReliability::Mrp => false,
                    TransportReliability::TransportProvides => true,
                },
            },
        ),
    }
}

/// A session is registered under the number that the peer gave, and without one
/// not at all; it leaves reliability to the transport exactly where the transport
/// provides it.
pub proof fn law_registration(
    responder_session_id: Option<u16>,
    reliability: TransportReliability,
)
    ensures
        pase_registration(responder_session_id, reliability) is Ok <==> responder_session_id is Some,
        pase_registration(responder_session_id, reliability) matches Ok(registration) ==> {
            &&& responder_session_id == Some(registration.peer_session_id)
            &&& registration.transport_reliable <==> reliability
                == TransportReliability::TransportProvides
        },
{
}

} // verus!
