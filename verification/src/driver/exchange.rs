//! Exchanges of a secured session.
//!
//! A session decodes packets and keeps timers; what an exchange makes of them is
//! decided here. A round trip waits for one answer. A read collects the chunks
//! of a report and solicits the next one while there are more.

use crate::driver::error::{DriverError, TransportFault};
use crate::im::error::ImError;
use vstd::prelude::*;

verus! {

/// The most chunks that a read takes.
pub const MAX_READ_CHUNKS: usize = 64;

/// The most bytes that a read takes.
pub const MAX_READ_BYTES: usize = 256 * 1024;

/// How long, in milliseconds, to wait while no timer runs.
pub const IDLE_SLEEP_MS: u64 = 3_600_000;

/// The opcode of the message that solicits the next chunk of a report.
pub const OP_STATUS_RESPONSE: u8 = 0x01;

/// The answer of a round trip.
#[derive(Debug, Clone, PartialEq, Eq)]
pub struct SecuredResponse {
    /// The exchange of request and answer.
    pub exchange_id: u16,
    /// The payload of the answer.
    pub payload: Vec<u8>,
}

/// What a session makes of a packet.
#[derive(Debug, Clone, PartialEq, Eq)]
pub enum Inbound {
    /// A message of an exchange.
    AppMessage {
        /// The exchange.
        exchange_id: u16,
        /// The payload.
        payload: Vec<u8>,
    },
    /// A message that came before; its acknowledgement has to be sent again.
    DuplicateReliableAckResent {
        /// The acknowledgement.
        ack_packet: Vec<u8>,
    },
    /// Anything else, such as an acknowledgement that stands alone.
    Other,
}

/// The model of what a session makes of a packet.
#[verifier::ext_equal]
pub enum InboundView {
    /// A message of an exchange.
    AppMessage {
        /// The exchange.
        exchange_id: u16,
        /// The payload.
        payload: Seq<u8>,
    },
    /// A message that came before.
    DuplicateReliableAckResent {
        /// The acknowledgement.
        ack_packet: Seq<u8>,
    },
    /// Anything else.
    Other,
}

impl View for Inbound {
    type V = InboundView;

    open spec fn view(&self) -> InboundView {
        match *self {
            Inbound::AppMessage { exchange_id, payload } => InboundView::AppMessage {
                exchange_id,
                payload: payload@,
            },
            Inbound::DuplicateReliableAckResent { ack_packet } => {
                InboundView::DuplicateReliableAckResent { ack_packet: ack_packet@ }
            },
            Inbound::Other => InboundView::Other,
        }
    }
}

/// What the timers of a session ask for.
#[derive(Debug, Clone, PartialEq, Eq)]
pub enum MrpEvent {
    /// To send a packet again.
    Retransmit {
        /// The packet.
        packet: Vec<u8>,
    },
    /// To send an acknowledgement.
    SendStandaloneAck {
        /// The acknowledgement.
        packet: Vec<u8>,
    },
    /// To give up an exchange.
    Expired {
        /// The exchange.
        exchange_id: u16,
    },
    /// Anything else.
    Other,
}

/// The packet that an event asks to send.
pub open spec fn event_packet(event: MrpEvent) -> Option<Seq<u8>> {
    match event {
        MrpEvent::Retransmit { packet } => Some(packet@),
        MrpEvent::SendStandaloneAck { packet } => Some(packet@),
        _ => None,
    }
}

/// The packets to send until an exchange is given up.
pub open spec fn packets_due(events: Seq<MrpEvent>) -> Seq<Seq<u8>>
    decreases events.len(),
{
    if events.len() == 0 || events[0] is Expired {
        Seq::empty()
    } else {
        (match event_packet(events[0]) {
            Some(packet) => seq![packet],
            None => Seq::empty(),
        }) + packets_due(events.skip(1))
    }
}

/// The first exchange to give up.
pub open spec fn first_expired(events: Seq<MrpEvent>) -> Option<u16>
    decreases events.len(),
{
    if events.len() == 0 {
        None
    } else {
        match events[0] {
            MrpEvent::Expired { exchange_id } => Some(exchange_id),
            _ => first_expired(events.skip(1)),
        }
    }
}

/// The bytes of some packets.
pub open spec fn packets_view(packets: Seq<Vec<u8>>) -> Seq<Seq<u8>> {
    packets.map_values(|packet: Vec<u8>| packet@)
}

/// What to do when a timer of an exchange fires.
#[derive(Debug, Clone)]
pub struct TimerPlan {
    /// The packets to send, in order.
    pub packets: Vec<Vec<u8>>,
    /// The error to end with when they are sent.
    pub failure: Option<DriverError>,
}

/// Whether a packet belongs to no session.
pub open spec fn is_straggler(packet: Seq<u8>) -> bool {
    packet.len() >= 3 && packet[1] == 0 && packet[2] == 0
}

/// Whether a packet belongs to no session; such packets are not handed to the
/// sessions.
pub fn is_unsecured(packet: &[u8]) -> (unsecured: bool)
    ensures
        unsecured == is_straggler(packet@),
{
    packet.len() >= 3 && packet[1] == 0 && packet[2] == 0
}

/// How long, in milliseconds, to wait for a deadline.
pub open spec fn wait_until(deadline_ms: Option<u64>, now_ms: u64) -> u64 {
    match deadline_ms {
        None => IDLE_SLEEP_MS,
        Some(deadline) => if deadline > now_ms {
            (deadline - now_ms) as u64
        } else {
            0
        },
    }
}

/// How long to wait for a packet: until the next timer fires.
pub fn sleep_for(deadline_ms: Option<u64>, now_ms: u64) -> (wait_ms: u64)
    ensures
        wait_ms == wait_until(deadline_ms, now_ms),
{
    match deadline_ms {
        None => IDLE_SLEEP_MS,
        Some(deadline) => if deadline > now_ms {
            deadline - now_ms
        } else {
            0
        },
    }
}

/// Takes the events of the timers: packets are sent in order until an exchange
/// is given up.
pub fn on_timer(events: Vec<MrpEvent>) -> (plan: TimerPlan)
    ensures
        packets_view(plan.packets@) == packets_due(events@),
        plan.failure == (match first_expired(events@) {
            Some(exchange_id) => Some(DriverError::Timeout { exchange_id }),
            None => None,
        }),
{
    let mut packets: Vec<Vec<u8>> = Vec::new();
    let mut i: usize = 0;
    proof {
        assert(events@.skip(0) =~= events@);
        assert(packets_view(packets@) + packets_due(events@) =~= packets_due(events@));
    }
    while i < events.len()
        invariant
            i <= events@.len(),
            packets_view(packets@) + packets_due(events@.skip(i as int)) == packets_due(events@),
            first_expired(events@) == first_expired(events@.skip(i as int)),
        decreases events@.len() - i,
    {
        let ghost rest = events@.skip(i as int);
        let ghost before = packets@;
        proof {
            assert(rest[0] == events@[i as int]);
            assert(rest.skip(1) =~= events@.skip(i + 1));
        }
        match &events[i] {
            MrpEvent::Retransmit { packet } => {
                packets.push(vstd::slice::slice_to_vec(packet.as_slice()));
            },
            MrpEvent::SendStandaloneAck { packet } => {
                packets.push(vstd::slice::slice_to_vec(packet.as_slice()));
            },
            MrpEvent::Expired { exchange_id } => {
                proof {
                    assert(packets_view(packets@) =~= packets_due(events@));
                }
                return TimerPlan {
                    packets,
                    failure: Some(DriverError::Timeout { exchange_id: *exchange_id }),
                };
            },
            MrpEvent::Other => {},
        }
        proof {
            match event_packet(rest[0]) {
                Some(packet) => {
                    assert(packets_view(packets@) =~= packets_view(before) + seq![packet]);
                },
                None => {},
            }
            assert(packets_view(packets@) + packets_due(rest.skip(1)) =~= packets_view(before)
                + packets_due(rest));
        }
        i = i + 1;
    }
    proof {
        assert(events@.skip(i as int).len() == 0);
        assert(packets_view(packets@) =~= packets_due(events@));
    }
    TimerPlan { packets, failure: None }
}

/// What a round trip does next.
#[derive(Debug, Clone)]
pub enum RoundTripStep {
    /// It waits on.
    Wait,
    /// It sends a packet and waits on.
    Send(Vec<u8>),
    /// It has its answer.
    Done(SecuredResponse),
    /// It has failed.
    Fail(DriverError),
}

/// Whether a refusal of a packet concerns this exchange: packets of unknown
/// sessions, and those that cannot be decrypted, are skipped.
pub open spec fn is_fatal(fault: TransportFault) -> bool {
    fault != TransportFault::UnknownSession && fault != TransportFault::DecryptionFailed
}

fn fatal(fault: TransportFault) -> (fatal: bool)
    ensures
        fatal == is_fatal(fault),
{
    match fault {
        TransportFault::UnknownSession | TransportFault::DecryptionFailed => false,
        _ => true,
    }
}

/// Whether a step is what comes of a packet for a request on an exchange.
pub open spec fn round_trip(
    our_exchange: u16,
    decoded: Result<Inbound, TransportFault>,
    step: RoundTripStep,
) -> bool {
    match decoded {
        Err(fault) => if is_fatal(fault) {
            step == RoundTripStep::Fail(DriverError::Transport(fault))
        } else {
            step is Wait
        },
        Ok(inbound) => match inbound@ {
            InboundView::AppMessage { exchange_id, payload } => if exchange_id == our_exchange {
                &&& step matches RoundTripStep::Done(response)
                &&& response.exchange_id == our_exchange
                &&& response.payload@ == payload
            } else {
                step is Wait
            },
            InboundView::DuplicateReliableAckResent { ack_packet } => {
                step matches RoundTripStep::Send(packet) && packet@ == ack_packet
            },
            InboundView::Other => step is Wait,
        },
    }
}

/// What a round trip on the given exchange makes of a packet.
pub fn round_trip_step(our_exchange: u16, decoded: Result<Inbound, TransportFault>) -> (step:
    RoundTripStep)
    ensures
        round_trip(our_exchange, decoded, step),
{
    match decoded {
        Err(fault) => if fatal(fault) {
            RoundTripStep::Fail(DriverError::Transport(fault))
        } else {
            RoundTripStep::Wait
        },
        Ok(Inbound::AppMessage { exchange_id, payload }) => if exchange_id == our_exchange {
            RoundTripStep::Done(SecuredResponse { exchange_id, payload })
        } else {
            RoundTripStep::Wait
        },
        Ok(Inbound::DuplicateReliableAckResent { ack_packet }) => RoundTripStep::Send(ack_packet),
        Ok(Inbound::Other) => RoundTripStep::Wait,
    }
}

/// A read of attributes whose report may come in chunks.
#[derive(Debug, Clone)]
pub struct ReadTransaction {
    exchange_id: u16,
    chunks: Vec<Vec<u8>>,
    total_bytes: usize,
}

/// The model of a read.
#[verifier::ext_equal]
pub struct ReadView {
    /// The exchange.
    pub exchange_id: u16,
    /// The chunks that came, in order.
    pub chunks: Seq<Seq<u8>>,
}

impl View for ReadTransaction {
    type V = ReadView;

    closed spec fn view(&self) -> ReadView {
        ReadView { exchange_id: self.exchange_id, chunks: packets_view(self.chunks@) }
    }
}

/// How many bytes some chunks have in all.
pub open spec fn total_len(chunks: Seq<Seq<u8>>) -> nat
    decreases chunks.len(),
{
    if chunks.len() == 0 {
        0
    } else {
        total_len(chunks.drop_last()) + chunks.last().len()
    }
}

/// A read within its limits.
pub open spec fn within_limits(read: ReadView) -> bool {
    read.chunks.len() <= MAX_READ_CHUNKS && total_len(read.chunks) <= MAX_READ_BYTES
}

/// What a read does next.
#[derive(Debug, Clone)]
pub enum ReadStep {
    /// It waits on.
    Wait,
    /// It sends a packet and waits on.
    Send(Vec<u8>),
    /// It solicits the next chunk.
    Solicit,
    /// It has all chunks.
    Done,
    /// It has failed.
    Fail(DriverError),
}

/// What comes of a chunk.
pub enum ChunkOutcome {
    /// It is taken, and more follow.
    More(ReadView),
    /// It is taken, and is the last one.
    Last(ReadView),
    /// It ends the read.
    Fail(DriverError),
}

/// What comes of a chunk that is no report, or a report that says whether more
/// follow. Limits come first.
pub open spec fn take_chunk(
    read: ReadView,
    payload: Seq<u8>,
    report: Result<bool, ImError>,
) -> ChunkOutcome {
    if read.chunks.len() + 1 > MAX_READ_CHUNKS {
        ChunkOutcome::Fail(DriverError::ReadTooLarge { limit: "MAX_READ_CHUNKS" })
    } else if total_len(read.chunks) + payload.len() > MAX_READ_BYTES {
        ChunkOutcome::Fail(DriverError::ReadTooLarge { limit: "MAX_READ_BYTES" })
    } else {
        let next = ReadView { chunks: read.chunks.push(payload), ..read };
        match report {
            Err(e) => ChunkOutcome::Fail(DriverError::Im(e)),
            Ok(true) => ChunkOutcome::More(next),
            Ok(false) => ChunkOutcome::Last(next),
        }
    }
}

/// Whether a step is what comes of a packet for a read, and how the read goes on.
pub open spec fn read_step(
    before: ReadView,
    decoded: Result<Inbound, TransportFault>,
    report: Result<bool, ImError>,
    step: ReadStep,
    after: ReadView,
) -> bool {
    match decoded {
        Err(fault) => after == before && if is_fatal(fault) {
            step == ReadStep::Fail(DriverError::Transport(fault))
        } else {
            step is Wait
        },
        Ok(inbound) => match inbound@ {
            InboundView::AppMessage { exchange_id, payload } => if exchange_id
                == before.exchange_id {
                match take_chunk(before, payload, report) {
                    ChunkOutcome::More(next) => step is Solicit && after == next,
                    ChunkOutcome::Last(next) => step is Done && after == next,
                    ChunkOutcome::Fail(e) => step == ReadStep::Fail(e) && after == before,
                }
            } else {
                step is Wait && after == before
            },
            InboundView::DuplicateReliableAckResent { ack_packet } => {
                &&& step matches ReadStep::Send(packet)
                &&& packet@ == ack_packet
                &&& after == before
            },
            InboundView::Other => step is Wait && after == before,
        },
    }
}

impl ReadTransaction {
    /// The limits hold and the bytes are counted.
    pub closed spec fn wf(&self) -> bool {
        &&& within_limits(self@)
        &&& self.total_bytes == total_len(self@.chunks)
    }

    /// A read on an exchange.
    pub fn new(exchange_id: u16) -> (read: Self)
        ensures
            read.wf(),
            read@ == (ReadView { exchange_id, chunks: Seq::empty() }),
    {
        let read = ReadTransaction { exchange_id, chunks: Vec::new(), total_bytes: 0 };
        proof {
            assert(read@.chunks =~= Seq::<Seq<u8>>::empty());
        }
        read
    }

    /// Takes a packet. `report` is what parsing its payload as a report says:
    /// whether more chunks follow. It counts only for messages of the exchange.
    pub fn on_inbound(
        &mut self,
        decoded: Result<Inbound, TransportFault>,
        report: Result<bool, ImError>,
    ) -> (step: ReadStep)
        requires
            old(self).wf(),
        ensures
            final(self).wf(),
            read_step(old(self)@, decoded, report, step, final(self)@),
    {
        match decoded {
            Err(fault) => if fatal(fault) {
                ReadStep::Fail(DriverError::Transport(fault))
            } else {
                ReadStep::Wait
            },
            Ok(Inbound::AppMessage { exchange_id, payload }) => {
                if exchange_id != self.exchange_id {
                    return ReadStep::Wait;
                }
                if self.chunks.len() >= MAX_READ_CHUNKS {
                    return ReadStep::Fail(DriverError::ReadTooLarge { limit: "MAX_READ_CHUNKS" });
                }
                if payload.len() > MAX_READ_BYTES - self.total_bytes {
                    return ReadStep::Fail(DriverError::ReadTooLarge { limit: "MAX_READ_BYTES" });
                }
                let more = match report {
                    Err(e) => {
                        return ReadStep::Fail(DriverError::Im(e));
                    },
                    Ok(more) => more,
                };
                let ghost taken = payload@;
                self.total_bytes = self.total_bytes + payload.len();
                self.chunks.push(payload);
                proof {
                    assert(self@.chunks =~= old(self)@.chunks.push(taken));
                    assert(self@.chunks.drop_last() =~= old(self)@.chunks);
                }
                if more {
                    ReadStep::Solicit
                } else {
                    ReadStep::Done
                }
            },
            Ok(Inbound::DuplicateReliableAckResent { ack_packet }) => ReadStep::Send(ack_packet),
            Ok(Inbound::Other) => ReadStep::Wait,
        }
    }

    /// The chunks that came, in order.
    pub fn into_chunks(self) -> (chunks: Vec<Vec<u8>>)
        ensures
            packets_view(chunks@) == self@.chunks,
    {
        self.chunks
    }
}

/// What comes of a sequence of chunks.
pub open spec fn take_chunks(
    read: ReadView,
    messages: Seq<(Seq<u8>, Result<bool, ImError>)>,
) -> ChunkOutcome
    decreases messages.len(),
{
    if messages.len() == 0 {
        ChunkOutcome::More(read)
    } else {
        match take_chunk(read, messages[0].0, messages[0].1) {
            ChunkOutcome::More(next) => take_chunks(next, messages.skip(1)),
            over => over,
        }
    }
}

/// The payloads of some messages.
pub open spec fn payloads(messages: Seq<(Seq<u8>, Result<bool, ImError>)>) -> Seq<Seq<u8>> {
    messages.map_values(|m: (Seq<u8>, Result<bool, ImError>)| m.0)
}

/// A read that ends well has every chunk up to the first that says that no more
/// follow, in the order in which they came, and is within its limits.
pub proof fn law_read_is_complete(
    read: ReadView,
    messages: Seq<(Seq<u8>, Result<bool, ImError>)>,
)
    requires
        within_limits(read),
    ensures
        take_chunks(read, messages) matches ChunkOutcome::Last(end) ==> within_limits(end)
            && exists|k: int|
            {
                &&& 0 < k <= messages.len()
                &&& end.chunks == read.chunks + #[trigger] payloads(messages.take(k))
                &&& messages[k - 1].1 == Ok::<bool, ImError>(false)
                &&& forall|i: int|
                    0 <= i < k - 1 ==> (#[trigger] messages[i]).1 == Ok::<bool, ImError>(true)
            },
    decreases messages.len(),
{
    if messages.len() > 0 {
        let (payload, report) = messages[0];
        let longer = ReadView { chunks: read.chunks.push(payload), ..read };
        assert(longer.chunks.drop_last() =~= read.chunks);
        match take_chunk(read, payload, report) {
            ChunkOutcome::More(next) => {
                let rest = messages.skip(1);
                law_read_is_complete(next, rest);
                if let ChunkOutcome::Last(end) = take_chunks(next, rest) {
                    let k = choose|k: int|
                        {
                            &&& 0 < k <= rest.len()
                            &&& end.chunks == next.chunks + #[trigger] payloads(rest.take(k))
                            &&& rest[k - 1].1 == Ok::<bool, ImError>(false)
                            &&& forall|i: int|
                                0 <= i < k - 1 ==> (#[trigger] rest[i]).1 == Ok::<bool, ImError>(
                                    true,
                                )
                        };
                    assert(messages[k] == rest[k - 1]);
                    assert forall|i: int| 0 <= i < k implies (#[trigger] messages[i]).1 == Ok::<
                        bool,
                        ImError,
                    >(true) by {
                        if i > 0 {
                            assert(messages[i] == rest[i - 1]);
                        }
                    }
                    assert(end.chunks =~= read.chunks + payloads(messages.take(k + 1)));
                }
            },
            ChunkOutcome::Last(end) => {
                assert(end.chunks =~= read.chunks + payloads(messages.take(1)));
            },
            ChunkOutcome::Fail(_) => {},
        }
    }
}

/// A packet belongs to no session exactly if its session number, in the second
/// and third byte, is 0.
pub proof fn law_stragglers(packet: Seq<u8>)
    ensures
        packet.len() < 3 ==> !is_straggler(packet),
        packet.len() >= 3 ==> (is_straggler(packet) <==> packet[1] + 0x100 * packet[2] == 0),
{
}

/// Every fault ends an exchange but two: a packet of a session that is not known,
/// and one that cannot be decrypted.
pub proof fn law_fatal_faults(fault: TransportFault)
    ensures
        !is_fatal(fault) <==> fault is UnknownSession || fault is DecryptionFailed,
{
}

/// What the timers ask for is done in order until an exchange is given up, and
/// the first one that is given up is named.
pub proof fn law_timers(first: MrpEvent, rest: Seq<MrpEvent>)
    ensures
        packets_due(Seq::empty()) == Seq::<Seq<u8>>::empty(),
        first_expired(Seq::empty()) is None,
        ({
            let events = seq![first] + rest;
            match first {
                MrpEvent::Retransmit { packet } => packets_due(events) == seq![packet@]
                    + packets_due(rest) && first_expired(events) == first_expired(rest),
                MrpEvent::SendStandaloneAck { packet } => packets_due(events) == seq![packet@]
                    + packets_due(rest) && first_expired(events) == first_expired(rest),
                MrpEvent::Expired { exchange_id } => packets_due(events).len() == 0
                    && first_expired(events) == Some(exchange_id),
                MrpEvent::Other => packets_due(events) == packets_due(rest) && first_expired(events)
                    == first_expired(rest),
            }
        }),
{
    let events = seq![first] + rest;
    assert(events.skip(1) =~= rest);
    assert(Seq::<Seq<u8>>::empty() + packets_due(rest) =~= packets_due(rest));
}

/// What comes of a chunk: up to 64 chunks and 256 KiB are taken, each behind the
/// others; a chunk that is no report ends the read, and so does one that says
/// that no more follow.
pub proof fn law_chunk(read: ReadView, payload: Seq<u8>, report: Result<bool, ImError>)
    ensures
        ({
            let outcome = take_chunk(read, payload, report);
            let fits = read.chunks.len() < 64 && total_len(read.chunks) + payload.len() <= 262_144;
            &&& (!fits ==> (outcome matches ChunkOutcome::Fail(DriverError::ReadTooLarge { limit: _ })))
            &&& fits ==> match report {
                Err(e) => outcome == ChunkOutcome::Fail(DriverError::Im(e)),
                Ok(more) => {
                    &&& more ==> outcome is More
                    &&& !more ==> outcome is Last
                },
            }
            &&& (outcome matches ChunkOutcome::More(next) ==> next.exchange_id == read.exchange_id
                && next.chunks == read.chunks.push(payload))
            &&& (outcome matches ChunkOutcome::Last(next) ==> next.exchange_id == read.exchange_id
                && next.chunks == read.chunks.push(payload))
        }),
        total_len(read.chunks.push(payload)) == total_len(read.chunks) + payload.len(),
        total_len(Seq::empty()) == 0,
{
    assert(read.chunks.push(payload).drop_last() =~= read.chunks);
}

/// A wait ends at the deadline, at once if it has passed, and after an hour if
/// there is none.
pub proof fn law_waits(deadline_ms: Option<u64>, now_ms: u64)
    ensures
        deadline_ms is None ==> wait_until(deadline_ms, now_ms) == 3_600_000,
        deadline_ms matches Some(deadline) ==> (if deadline >= now_ms {
            now_ms + wait_until(deadline_ms, now_ms) == deadline
        } else {
            wait_until(deadline_ms, now_ms) == 0
        }),
{
}

/// A request is over only with a message of its own exchange, whose payload is
/// the answer as it came, or with a fault other than a packet of an unknown session
/// or one that cannot be decrypted. What the transport wants to send again is sent
/// as it is, and everything else is waited out.
pub proof fn law_round_trip(
    our_exchange: u16,
    decoded: Result<Inbound, TransportFault>,
    step: RoundTripStep,
)
    requires
        round_trip(our_exchange, decoded, step),
    ensures
        step matches RoundTripStep::Done(response) ==> {
            &&& response.exchange_id == our_exchange
            &&& decoded matches Ok(Inbound::AppMessage { exchange_id, payload })
            &&& exchange_id == our_exchange
            &&& payload@ == response.payload@
        },
        decoded matches Ok(Inbound::AppMessage { exchange_id, payload }) ==> (if exchange_id
            == our_exchange {
            step is Done
        } else {
            step is Wait
        }),
        step matches RoundTripStep::Fail(e) ==> (decoded matches Err(fault) && e
            == DriverError::Transport(fault) && !(fault is UnknownSession) && !(
        fault is DecryptionFailed)),
        decoded matches Err(fault) ==> (step is Wait <==> fault is UnknownSession
            || fault is DecryptionFailed),
        step matches RoundTripStep::Send(packet) ==> (decoded matches Ok(
            Inbound::DuplicateReliableAckResent { ack_packet },
        ) && ack_packet@ == packet@),
        decoded matches Ok(Inbound::DuplicateReliableAckResent { ack_packet: _ }) ==> step is Send,
        decoded matches Ok(Inbound::Other) ==> step is Wait,
{
}

/// A read grows only by the messages of its own exchange, each behind the others
/// and as it came; it is done with a report that no more follow, and asks for the
/// next chunk after any other.
pub proof fn law_read_step(
    before: ReadView,
    decoded: Result<Inbound, TransportFault>,
    report: Result<bool, ImError>,
    step: ReadStep,
    after: ReadView,
)
    requires
        read_step(before, decoded, report, step, after),
    ensures
        after.exchange_id == before.exchange_id,
        step is Solicit || step is Done ==> {
            &&& decoded matches Ok(Inbound::AppMessage { exchange_id, payload })
            &&& exchange_id == before.exchange_id
            &&& after.chunks == before.chunks.push(payload@)
        },
        step is Solicit ==> report == Ok::<bool, ImError>(true),
        step is Done ==> report == Ok::<bool, ImError>(false),
        !(step is Solicit) && !(step is Done) ==> after.chunks == before.chunks,
        decoded matches Err(fault) ==> (step is Wait <==> fault is UnknownSession
            || fault is DecryptionFailed),
        decoded matches Err(fault) ==> (step is Wait || step == ReadStep::Fail(
            DriverError::Transport(fault),
        )),
        step matches ReadStep::Send(packet) ==> (decoded matches Ok(
            Inbound::DuplicateReliableAckResent { ack_packet },
        ) && ack_packet@ == packet@),
        decoded matches Ok(Inbound::DuplicateReliableAckResent { ack_packet: _ }) ==> step is Send,
        decoded matches Ok(Inbound::AppMessage { exchange_id, payload: _ }) ==> (exchange_id
            != before.exchange_id ==> step is Wait),
        decoded matches Ok(Inbound::Other) ==> step is Wait,
        decoded matches Ok(Inbound::AppMessage { exchange_id, payload }) ==> (exchange_id
            == before.exchange_id && before.chunks.len() < 64 && total_len(before.chunks)
            + payload@.len() <= 262_144 && report is Ok ==> step is Solicit || step is Done),
{
}

} // verus!
