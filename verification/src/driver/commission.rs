//! The run of a commissioning from its first session to its end.
//!
//! The state machine of the commissioner says what to do next; this module
//! decides over which session and with which deadline it is done, what the state
//! machine hears of the answer, and what happens when the run ends.

use crate::clusters::general_commissioning;
use crate::clusters::general_commissioning::{
    basic_commissioning_info, law_limits_are_read, BasicCommissioningInfo,
};
use crate::clusters::network_commissioning;
use crate::clusters::network_commissioning::{first_uint, law_attribute_roundtrip};
use crate::driver::discovery::{
    Endpoint, IpAddress, BLE_RESOLVE_POLL_ATTEMPTS, COMMISSIONABLE_POLL_ATTEMPTS,
    RESOLVE_POLL_ATTEMPTS, RESOLVE_POLL_INTERVAL_MS,
};
use crate::driver::error::DriverError;
use crate::driver::exchange::{event_packet, packets_view, MrpEvent};
use crate::driver::TransportReliability;
use crate::im::error::ImError;
use crate::im::invoke::InvokeResponse;
use crate::im::read::{AttributePath, ReportData};
use crate::im::status::ImStatus;
use crate::im::CommandPath;
use crate::state_machine::{Expectation, SessionContext};
use crate::tlv::laws::{lemma_encode_concat, lemma_encode_one};
use crate::tlv::layout::{law_structure_layout, law_uint_layout};
use crate::tlv::writer::{member_items, value_items};
use crate::tlv::{at, decode_all, encode_all, struct_start, Item, Scalar, Tag, TlvWriter, Value};
use vstd::prelude::*;
use vstd::slice::slice_to_vec;

verus! {

/// How long, in milliseconds, to wait for an answer over a transport that is
/// reliable by itself.
pub const RESPONSE_DEADLINE_MS: u64 = 30_000;

/// How long, in milliseconds, to wait for the answer to `ConnectNetwork`: the
/// device joins the network before it answers.
pub const CONNECT_NETWORK_RESPONSE_DEADLINE_MS: u64 = 60_000;

/// The exchange that a missed deadline names.
pub const RESPONSE_DEADLINE_EXCHANGE_SENTINEL: u16 = 0;

/// How far ahead, in milliseconds, acknowledgements are flushed.
pub const FLUSH_HORIZON_MS: u64 = 500;

/// The number of the attribute `BasicCommissioningInfo`.
pub const BASIC_COMMISSIONING_INFO: u32 = 0x0001;

/// The opcode of a request to read.
pub const OP_READ_REQUEST: u8 = 0x02;

/// The opcode of a request to invoke.
pub const OP_INVOKE_REQUEST: u8 = 0x08;

/// The port of a device.
pub const MATTER_PORT: u16 = 5540;

/// A stand-in for the peer of a transport that knows its peer anyway.
pub fn stream_peer() -> (peer: Endpoint)
    ensures
        peer == (Endpoint { address: IpAddress::V6(1), port: MATTER_PORT }),
        peer.port == 5540,
{
    Endpoint { address: IpAddress::V6(1), port: MATTER_PORT }
}

/// How a run differs by the way a device is reached.
#[derive(Debug, Clone, Copy, PartialEq, Eq, Structural)]
pub struct RunProfile {
    /// Who makes the first session reliable.
    pub reliability: TransportReliability,
    /// How often the operational record is looked for.
    pub resolve_attempts: u32,
}

/// The profile of a device on the network.
pub fn ip_profile() -> (profile: RunProfile)
    ensures
        profile == (RunProfile {
            reliability: TransportReliability::Mrp,
            resolve_attempts: RESOLVE_POLL_ATTEMPTS,
        }),
        profile.resolve_attempts == 300,
{
    RunProfile {
        reliability: TransportReliability::Mrp,
        resolve_attempts: RESOLVE_POLL_ATTEMPTS,
    }
}

/// The profile of a device that is reached over Bluetooth.
pub fn ble_profile() -> (profile: RunProfile)
    ensures
        profile == (RunProfile {
            reliability: TransportReliability::TransportProvides,
            resolve_attempts: BLE_RESOLVE_POLL_ATTEMPTS,
        }),
        profile.resolve_attempts == 600,
{
    RunProfile {
        reliability: TransportReliability::TransportProvides,
        resolve_attempts: BLE_RESOLVE_POLL_ATTEMPTS,
    }
}

/// What came of an invoke.
#[derive(Debug, Clone, PartialEq, Eq)]
pub enum InvokeOutcome {
    /// A response command with its fields.
    Command(Vec<u8>),
    /// A bare status.
    Status(ImStatus),
}

/// What comes of the answer to an invoke.
pub open spec fn outcome_of(response: InvokeResponse) -> InvokeOutcome {
    match response {
        InvokeResponse::Command { path, fields_tlv } => InvokeOutcome::Command(fields_tlv),
        InvokeResponse::Status(status) => InvokeOutcome::Status(status),
    }
}

/// What came of an invoke, given the answer.
pub fn invoke_outcome(response: InvokeResponse) -> (outcome: InvokeOutcome)
    ensures
        outcome == outcome_of(response),
{
    match response {
        InvokeResponse::Command { path: _, fields_tlv } => InvokeOutcome::Command(fields_tlv),
        InvokeResponse::Status(status) => InvokeOutcome::Status(status),
    }
}

/// What the state machine hears of an invoke: the fields of the response, or a
/// single byte with the code of the status.
pub open spec fn invoke_payload(outcome: InvokeOutcome) -> Seq<u8> {
    match outcome {
        InvokeOutcome::Command(fields) => fields@,
        InvokeOutcome::Status(ImStatus::Success) => seq![0u8],
        InvokeOutcome::Status(ImStatus::Failure(code)) => seq![code],
    }
}

/// What the state machine hears of an invoke.
pub fn response_payload(outcome: InvokeOutcome) -> (payload: Vec<u8>)
    ensures
        payload@ == invoke_payload(outcome),
{
    match outcome {
        InvokeOutcome::Command(fields) => fields,
        InvokeOutcome::Status(status) => {
            let code: u8 = match status {
                ImStatus::Success => 0,
                ImStatus::Failure(code) => code,
            };
            let mut payload: Vec<u8> = Vec::new();
            payload.push(code);
            proof {
                assert(payload@ =~= invoke_payload(outcome));
            }
            payload
        },
    }
}

/// The value of an attribute in a report: the first one of that cluster and
/// number, on whatever endpoint.
pub open spec fn find_attribute(
    attributes: Seq<(AttributePath, Value)>,
    cluster: u32,
    attribute: u32,
) -> Option<Value>
    decreases attributes.len(),
{
    if attributes.len() == 0 {
        None
    } else if attributes[0].0.cluster == cluster && attributes[0].0.attribute == attribute {
        Some(attributes[0].1)
    } else {
        find_attribute(attributes.skip(1), cluster, attribute)
    }
}

fn attribute_value(report: &ReportData, cluster: u32, attribute: u32) -> (value: Option<&Value>)
    ensures
        match find_attribute(report.attributes@, cluster, attribute) {
            Some(v) => value matches Some(found) && *found == v,
            None => value is None,
        },
{
    let ghost all = report.attributes@;
    let mut i: usize = 0;
    proof {
        assert(all.skip(0) =~= all);
    }
    while i < report.attributes.len()
        invariant
            i <= all.len(),
            all == report.attributes@,
            find_attribute(all, cluster, attribute) == find_attribute(
                all.skip(i as int),
                cluster,
                attribute,
            ),
        decreases all.len() - i,
    {
        proof {
            assert(all.skip(i as int)[0] == all[i as int]);
            assert(all.skip(i as int).skip(1) =~= all.skip(i + 1));
        }
        let entry = &report.attributes[i];
        if entry.0.cluster == cluster && entry.0.attribute == attribute {
            return Some(&entry.1);
        }
        i = i + 1;
    }
    proof {
        assert(all.skip(i as int).len() == 0);
    }
    None
}

/// The items of an unsigned integer without a tag.
pub open spec fn plain_uint(value: u64) -> Seq<Item> {
    seq![Item::Scalar { tag: Tag::Anonymous, value: Scalar::Uint(value) }]
}

/// What the state machine hears of a read, given what it waits for: the features
/// of the network interfaces as a number, or the limits of the device as a
/// structure.
pub open spec fn read_payload(
    expect: Expectation,
    attributes: Seq<(AttributePath, Value)>,
) -> Result<Seq<u8>, DriverError> {
    match expect {
        Expectation::NetworkCommissioningInfo => match find_attribute(
            attributes,
            network_commissioning::CLUSTER_ID,
            network_commissioning::FEATURE_MAP,
        ) {
            None => Err(
                DriverError::Im(
                    ImError::MissingField(
                        "FeatureMap attribute absent from NetworkCommissioning ReportData",
                    ),
                ),
            ),
            Some(Value::Uint(features)) => Ok(encode_all(plain_uint(features))),
            Some(_) => Err(
                DriverError::Im(ImError::UnexpectedValue("FeatureMap value is not a Uint")),
            ),
        },
        Expectation::CommissioningInfo => match find_attribute(
            attributes,
            general_commissioning::CLUSTER_ID,
            BASIC_COMMISSIONING_INFO,
        ) {
            None => Err(
                DriverError::Im(
                    ImError::MissingField(
                        "BasicCommissioningInfo attribute absent from GeneralCommissioning ReportData",
                    ),
                ),
            ),
            Some(value) => Ok(encode_all(value_items(Tag::Anonymous, value))),
        },
        _ => Err(
            DriverError::Im(
                ImError::UnexpectedValue("extract_read_payload called with a non-read Expectation"),
            ),
        ),
    }
}

fn encode_plain_uint(value: u64) -> (tlv: Vec<u8>)
    ensures
        tlv@ == encode_all(plain_uint(value)),
{
    let mut w = TlvWriter::new();
    w.put_uint(Tag::Anonymous, value);
    proof {
        assert(w@ =~= plain_uint(value));
    }
    w.finish()
}

/// Extracts from a report what the state machine waits for.
pub fn extract_read_payload(expect: Expectation, report: &ReportData) -> (r: Result<
    Vec<u8>,
    DriverError,
>)
    ensures
        match read_payload(expect, report.attributes@) {
            Ok(view) => r matches Ok(payload) && payload@ == view,
            Err(e) => r == Err::<Vec<u8>, DriverError>(e),
        },
{
    match expect {
        Expectation::NetworkCommissioningInfo => {
            match attribute_value(
                report,
                network_commissioning::CLUSTER_ID,
                network_commissioning::FEATURE_MAP,
            ) {
                None => Err(
                    DriverError::Im(
                        ImError::MissingField(
                            "FeatureMap attribute absent from NetworkCommissioning ReportData",
                        ),
                    ),
                ),
                Some(Value::Uint(features)) => Ok(encode_plain_uint(*features)),
                Some(_) => Err(
                    DriverError::Im(ImError::UnexpectedValue("FeatureMap value is not a Uint")),
                ),
            }
        },
        Expectation::CommissioningInfo => {
            match attribute_value(
                report,
                general_commissioning::CLUSTER_ID,
                BASIC_COMMISSIONING_INFO,
            ) {
                None => Err(
                    DriverError::Im(
                        ImError::MissingField(
                            "BasicCommissioningInfo attribute absent from GeneralCommissioning ReportData",
                        ),
                    ),
                ),
                Some(value) => {
                    let mut w = TlvWriter::new();
                    w.write_value(Tag::Anonymous, value);
                    proof {
                        assert(w@ =~= value_items(Tag::Anonymous, *value));
                    }
                    Ok(w.finish())
                },
            }
        },
        _ => Err(
            DriverError::Im(
                ImError::UnexpectedValue("extract_read_payload called with a non-read Expectation"),
            ),
        ),
    }
}

/// How long the device may take to join a network, if a report says so in 16
/// bits.
pub open spec fn connect_max_time(attributes: Seq<(AttributePath, Value)>) -> Option<u16> {
    match find_attribute(
        attributes,
        network_commissioning::CLUSTER_ID,
        network_commissioning::CONNECT_MAX_TIME_SECONDS,
    ) {
        Some(Value::Uint(seconds)) => if seconds <= u16::MAX {
            Some(seconds as u16)
        } else {
            None
        },
        _ => None,
    }
}

/// Extracts from a report how long the device may take to join a network.
pub fn extract_connect_max_time_seconds(report: &ReportData) -> (seconds: Option<u16>)
    ensures
        seconds == connect_max_time(report.attributes@),
{
    match attribute_value(
        report,
        network_commissioning::CLUSTER_ID,
        network_commissioning::CONNECT_MAX_TIME_SECONDS,
    ) {
        Some(Value::Uint(raw)) => {
            let tlv = encode_plain_uint(*raw);
            proof {
                law_attribute_roundtrip(Tag::Anonymous, *raw);
            }
            match network_commissioning::decode_connect_max_time_seconds(tlv.as_slice()) {
                Ok(seconds) => Some(seconds),
                Err(_) => None,
            }
        },
        _ => None,
    }
}

/// How long, in milliseconds, a flush waits for a timer; nothing if it does not.
pub open spec fn flush_delay(deadline_ms: Option<u64>, now_ms: u64) -> Option<u64> {
    match deadline_ms {
        None => None,
        Some(deadline) => if deadline <= now_ms {
            Some(0u64)
        } else if deadline - now_ms > FLUSH_HORIZON_MS {
            None
        } else {
            Some((deadline - now_ms) as u64)
        },
    }
}

/// How long to wait for the next acknowledgement to flush; nothing is left to
/// flush if no timer fires within the horizon.
pub fn flush_wait(deadline_ms: Option<u64>, now_ms: u64) -> (wait_ms: Option<u64>)
    ensures
        wait_ms == flush_delay(deadline_ms, now_ms),
{
    match deadline_ms {
        None => None,
        Some(deadline) => if deadline <= now_ms {
            Some(0)
        } else if deadline - now_ms > FLUSH_HORIZON_MS {
            None
        } else {
            Some(deadline - now_ms)
        },
    }
}

/// The packets that some events ask to send.
pub open spec fn all_packets(events: Seq<MrpEvent>) -> Seq<Seq<u8>>
    decreases events.len(),
{
    if events.len() == 0 {
        Seq::empty()
    } else {
        match event_packet(events.last()) {
            Some(packet) => all_packets(events.drop_last()).push(packet),
            None => all_packets(events.drop_last()),
        }
    }
}

/// The packets to send while acknowledgements are flushed: all that the events
/// ask for, whatever expires.
pub fn flush_packets(events: Vec<MrpEvent>) -> (packets: Vec<Vec<u8>>)
    ensures
        packets_view(packets@) == all_packets(events@),
{
    let mut packets: Vec<Vec<u8>> = Vec::new();
    let mut i: usize = 0;
    proof {
        assert(events@.take(0).len() == 0);
        assert(packets_view(packets@) =~= all_packets(events@.take(0)));
    }
    while i < events.len()
        invariant
            i <= events@.len(),
            packets_view(packets@) == all_packets(events@.take(i as int)),
        decreases events@.len() - i,
    {
        let ghost before = packets@;
        proof {
            assert(events@.take(i + 1).drop_last() =~= events@.take(i as int));
            assert(events@.take(i + 1).last() == events@[i as int]);
        }
        match &events[i] {
            MrpEvent::Retransmit { packet } => {
                packets.push(slice_to_vec(packet.as_slice()));
            },
            MrpEvent::SendStandaloneAck { packet } => {
                packets.push(slice_to_vec(packet.as_slice()));
            },
            _ => {},
        }
        proof {
            match event_packet(events@[i as int]) {
                Some(packet) => {
                    assert(packets_view(packets@) =~= packets_view(before).push(packet));
                },
                None => {},
            }
        }
        i = i + 1;
    }
    proof {
        assert(events@.take(i as int) =~= events@);
    }
    packets
}

/// The deadline for an answer. Where the exchange sends again by itself there is
/// none: it gives up in time.
pub open spec fn deadline(reliability: TransportReliability, is_connect_network: bool) -> Option<
    u64,
> {
    match reliability {
        TransportReliability::Mrp => None,
        TransportReliability::TransportProvides => if is_connect_network {
            Some(CONNECT_NETWORK_RESPONSE_DEADLINE_MS)
        } else {
            Some(RESPONSE_DEADLINE_MS)
        },
    }
}

/// The deadline, in milliseconds, for an answer over the first session.
pub fn response_deadline(reliability: TransportReliability, is_connect_network: bool) -> (ms:
    Option<u64>)
    ensures
        ms == deadline(reliability, is_connect_network),
{
    match reliability {
        TransportReliability::Mrp => None,
        TransportReliability::TransportProvides => if is_connect_network {
            Some(CONNECT_NETWORK_RESPONSE_DEADLINE_MS)
        } else {
            Some(RESPONSE_DEADLINE_MS)
        },
    }
}

/// The error of a missed deadline.
pub fn deadline_missed() -> (e: DriverError)
    ensures
        e == (DriverError::Timeout { exchange_id: RESPONSE_DEADLINE_EXCHANGE_SENTINEL }),
        e matches DriverError::Timeout { exchange_id } && exchange_id == 0,
{
    DriverError::Timeout { exchange_id: RESPONSE_DEADLINE_EXCHANGE_SENTINEL }
}

/// Why a run ended without a fabric.
#[derive(Debug, Clone)]
pub enum LoopExit {
    /// The state machine gave up.
    Aborted {
        /// Whether the failsafe of the device should be disarmed.
        disarm: bool,
        /// Why.
        reason: String,
    },
    /// Anything else.
    Failed(DriverError),
}

/// Whether the failsafe is disarmed at the end of a run.
pub open spec fn disarms(exit: LoopExit) -> bool {
    match exit {
        LoopExit::Failed(_) => true,
        LoopExit::Aborted { disarm, .. } => disarm,
    }
}

/// Decides whether the failsafe is disarmed at the end of a run.
pub fn disarm_on_exit(exit: &LoopExit) -> (disarm: bool)
    ensures
        disarm == disarms(*exit),
{
    match exit {
        LoopExit::Failed(_) => true,
        LoopExit::Aborted { disarm, reason: _ } => *disarm,
    }
}

/// The error that an end of a run leads to.
pub open spec fn exit_error(exit: LoopExit) -> DriverError {
    match exit {
        LoopExit::Aborted { disarm, reason } => DriverError::Aborted(reason),
        LoopExit::Failed(cause) => cause,
    }
}

impl LoopExit {
    /// The error that a run ends with.
    pub fn into_driver_error(self) -> (e: DriverError)
        ensures
            e == exit_error(self),
    {
        match self {
            LoopExit::Aborted { disarm: _, reason } => DriverError::Aborted(reason),
            LoopExit::Failed(cause) => cause,
        }
    }
}

/// What is left to do when a run has failed.
#[derive(Debug)]
pub struct ExitPlan {
    /// Whether to disarm the failsafe first, whether that succeeds or not.
    pub disarm: bool,
    /// The deadline, in milliseconds, for disarming it.
    pub deadline_ms: Option<u64>,
    /// The error to end with.
    pub error: DriverError,
}

/// Decides what is left to do when a run has failed.
pub fn conclude_run(exit: LoopExit, reliability: TransportReliability) -> (plan: ExitPlan)
    ensures
        plan.disarm == disarms(exit),
        plan.deadline_ms == deadline(reliability, false),
        plan.error == exit_error(exit),
{
    let disarm = disarm_on_exit(&exit);
    ExitPlan {
        disarm,
        deadline_ms: response_deadline(reliability, false),
        error: exit.into_driver_error(),
    }
}

/// The command that disarms the failsafe, and its fields.
pub fn rollback_command() -> (command: (CommandPath, Vec<u8>))
    ensures
        command.0 == (CommandPath {
            endpoint: 0,
            cluster: general_commissioning::CLUSTER_ID,
            command: general_commissioning::ARM_FAIL_SAFE,
        }),
        command.1@ == encode_all(general_commissioning::arm_fail_safe_items(0, 0)),
        command.0.endpoint == 0 && command.0.cluster == 0x30 && command.0.command == 0,
        command.1@ == seq![0x15u8, 0x24, 0x00, 0x00, 0x24, 0x01, 0x00, 0x18],
{
    proof {
        lemma_disarm_bytes();
    }
    (
        CommandPath {
            endpoint: 0,
            cluster: general_commissioning::CLUSTER_ID,
            command: general_commissioning::ARM_FAIL_SAFE,
        },
        general_commissioning::encode_arm_fail_safe(0, 0),
    )
}

/// The bytes that disarm the failsafe: a time of 0 and a breadcrumb of 0.
proof fn lemma_disarm_bytes()
    ensures
        encode_all(general_commissioning::arm_fail_safe_items(0, 0)) == seq![
            0x15u8,
            0x24,
            0x00,
            0x00,
            0x24,
            0x01,
            0x00,
            0x18,
        ],
{
    let first = Item::Scalar { tag: Tag::Context(0), value: Scalar::Uint(0) };
    let second = Item::Scalar { tag: Tag::Context(1), value: Scalar::Uint(0) };
    law_uint_layout(0, 0);
    law_uint_layout(1, 0);
    law_structure_layout(seq![first, second]);
    lemma_encode_concat(seq![first], seq![second]);
    lemma_encode_one(first);
    lemma_encode_one(second);
    assert(seq![first] + seq![second] =~= seq![first, second]);
    assert(seq![struct_start()] + seq![first, second] + seq![Item::End]
        =~= general_commissioning::arm_fail_safe_items(0, 0));
    assert(seq![0x15u8] + (seq![0x24u8, 0x00, 0x00] + seq![0x24u8, 0x01, 0x00]) + seq![0x18u8]
        =~= seq![0x15u8, 0x24, 0x00, 0x00, 0x24, 0x01, 0x00, 0x18]);
}

/// What the state machine asks for. `F` is what a run yields.
#[derive(Debug)]
pub enum Action<F> {
    /// To invoke a command.
    Invoke {
        /// The session.
        session: SessionContext,
        /// The endpoint.
        endpoint: u16,
        /// The cluster.
        cluster: u32,
        /// The command.
        command: u32,
        /// The fields of the command.
        payload: Vec<u8>,
        /// What the state machine waits for.
        expect: Expectation,
    },
    /// To read attributes.
    ReadAttribute {
        /// The session.
        session: SessionContext,
        /// The endpoint.
        endpoint: u16,
        /// The cluster.
        cluster: u32,
        /// The attributes.
        attributes: Vec<u32>,
        /// What the state machine waits for.
        expect: Expectation,
    },
    /// To set up the operational session.
    EstablishCase {
        /// The fabric.
        fabric_id: u64,
        /// The node of the device.
        peer_node_id: u64,
    },
    /// To end with a fabric.
    Done(F),
    /// To give up.
    Abort {
        /// Whether the failsafe should be disarmed.
        send_disarm_failsafe: bool,
        /// Why.
        reason: String,
    },
    /// To drop the operational session.
    EvictCase,
}

/// The session that a request goes over.
#[derive(Debug, Clone, Copy, PartialEq, Eq, Structural)]
pub enum Route {
    /// The first session, over its transport to its peer.
    Pase,
    /// The operational session.
    Case {
        /// The number of the session.
        session_id: u16,
        /// Where the node was found.
        endpoint: Endpoint,
    },
}

/// What to do for an action.
#[derive(Debug)]
pub enum Dispatch<F> {
    /// Invoke a command.
    Invoke {
        /// The session to use.
        route: Route,
        /// The deadline, in milliseconds, for the answer.
        deadline_ms: Option<u64>,
        /// The path of the command.
        path: CommandPath,
        /// Its fields.
        fields: Vec<u8>,
        /// What the state machine waits for.
        expect: Expectation,
    },
    /// Read attributes.
    Read {
        /// The session to use.
        route: Route,
        /// The deadline, in milliseconds, for the answer.
        deadline_ms: Option<u64>,
        /// The paths of the attributes.
        paths: Vec<AttributePath>,
        /// What the state machine waits for.
        expect: Expectation,
    },
    /// Flush acknowledgements, take the credentials, and set up the operational
    /// session.
    EstablishCase {
        /// The fabric.
        fabric_id: u64,
        /// The node of the device.
        peer_node_id: u64,
    },
    /// End with a fabric.
    Finish(F),
    /// End without one.
    Exit(LoopExit),
}

/// The state of a run between two actions.
#[derive(Debug, Clone, Copy)]
pub struct PollLoop {
    reliability: TransportReliability,
    case_slot: Option<(u16, Endpoint)>,
    credentials_taken: bool,
}

/// The model of the state of a run.
#[verifier::ext_equal]
pub struct LoopView {
    /// Who makes the first session reliable.
    pub reliability: TransportReliability,
    /// The operational session, once it is set up.
    pub case_slot: Option<(u16, Endpoint)>,
    /// Whether the credentials for it are used up.
    pub credentials_taken: bool,
}

impl View for PollLoop {
    type V = LoopView;

    closed spec fn view(&self) -> LoopView {
        LoopView {
            reliability: self.reliability,
            case_slot: self.case_slot,
            credentials_taken: self.credentials_taken,
        }
    }
}

/// The session for a request, if it exists.
pub open spec fn route_for(state: LoopView, session: SessionContext) -> Option<Route> {
    match session {
        SessionContext::Pase => Some(Route::Pase),
        SessionContext::Case => match state.case_slot {
            Some((session_id, endpoint)) => Some(Route::Case { session_id, endpoint }),
            None => None,
        },
    }
}

/// The deadline for a request: the operational session keeps its own.
pub open spec fn deadline_for(
    state: LoopView,
    session: SessionContext,
    is_connect_network: bool,
) -> Option<u64> {
    match session {
        SessionContext::Pase => deadline(state.reliability, is_connect_network),
        SessionContext::Case => None,
    }
}

/// Whether a command makes the device join a network.
pub open spec fn is_connect_network(cluster: u32, command: u32) -> bool {
    cluster == network_commissioning::CLUSTER_ID && command
        == network_commissioning::CONNECT_NETWORK
}

/// The paths of some attributes of a cluster.
pub open spec fn attribute_paths(endpoint: u16, cluster: u32, attributes: Seq<u32>) -> Seq<
    AttributePath,
> {
    attributes.map_values(|attribute: u32| AttributePath { endpoint, cluster, attribute })
}

/// Whether a dispatch is the right one for an action.
pub open spec fn dispatches<F>(state: LoopView, action: Action<F>, dispatch: Dispatch<F>) -> bool {
    match action {
        Action::Invoke { session, endpoint, cluster, command, payload, expect } => match route_for(
            state,
            session,
        ) {
            None => dispatch == Dispatch::<F>::Exit(
                LoopExit::Failed(
                    DriverError::Handshake("CASE session required but not yet established"),
                ),
            ),
            Some(route) => dispatch == (Dispatch::<F>::Invoke {
                route,
                deadline_ms: deadline_for(state, session, is_connect_network(cluster, command)),
                path: CommandPath { endpoint, cluster, command },
                fields: payload,
                expect,
            }),
        },
        Action::ReadAttribute { session, endpoint, cluster, attributes, expect } => {
            match route_for(state, session) {
                None => dispatch == Dispatch::<F>::Exit(
                    LoopExit::Failed(
                        DriverError::Handshake(
                            "CASE session required but not yet established for ReadAttribute",
                        ),
                    ),
                ),
                Some(wanted) => dispatch matches Dispatch::Read {
                    route,
                    deadline_ms,
                    paths,
                    expect: awaited,
                } && route == wanted && deadline_ms == deadline_for(state, session, false)
                    && paths@ == attribute_paths(endpoint, cluster, attributes@) && awaited
                    == expect,
            }
        },
        Action::EstablishCase { fabric_id, peer_node_id } => dispatch == (Dispatch::<
            F,
        >::EstablishCase { fabric_id, peer_node_id }),
        Action::Done(fabric) => dispatch == Dispatch::Finish(fabric),
        Action::Abort { send_disarm_failsafe, reason } => dispatch == Dispatch::<F>::Exit(
            LoopExit::Aborted { disarm: send_disarm_failsafe, reason },
        ),
        Action::EvictCase => dispatch == Dispatch::<F>::Exit(
            LoopExit::Failed(
                DriverError::Handshake(
                    "unexpected Action::EvictCase in M6 commission() loop (multi-fabric not implemented)",
                ),
            ),
        ),
    }
}

/// A loop once credentials have been asked for.
pub open spec fn after_credentials(state: LoopView) -> LoopView {
    LoopView { credentials_taken: true, ..state }
}

/// Whether the credentials are refused: they are handed out once.
pub open spec fn credentials_refused(state: LoopView) -> bool {
    state.credentials_taken
}

/// A loop once it is known whether an operational session stands.
pub open spec fn after_case(state: LoopView, session: Option<(u16, Endpoint)>) -> LoopView {
    match session {
        Some(slot) => LoopView { case_slot: Some(slot), ..state },
        None => state,
    }
}

impl PollLoop {
    /// The state at the start of a run.
    pub fn new(reliability: TransportReliability) -> (state: Self)
        ensures
            state@ == (LoopView { reliability, case_slot: None, credentials_taken: false }),
    {
        PollLoop { reliability, case_slot: None, credentials_taken: false }
    }

    fn route(&self, session: SessionContext) -> (route: Option<Route>)
        ensures
            route == route_for(self@, session),
    {
        match session {
            SessionContext::Pase => Some(Route::Pase),
            SessionContext::Case => match self.case_slot {
                Some((session_id, endpoint)) => Some(Route::Case { session_id, endpoint }),
                None => None,
            },
        }
    }

    fn request_deadline(&self, session: SessionContext, is_connect_network: bool) -> (ms: Option<
        u64,
    >)
        ensures
            ms == deadline_for(self@, session, is_connect_network),
    {
        match session {
            SessionContext::Pase => response_deadline(self.reliability, is_connect_network),
            SessionContext::Case => None,
        }
    }

    /// Decides what to do for an action.
    pub fn dispatch<F>(&self, action: Action<F>) -> (dispatch: Dispatch<F>)
        ensures
            dispatches(self@, action, dispatch),
            action matches Action::Invoke {
                session,
                endpoint,
                cluster,
                command,
                payload,
                expect,
            } ==> (dispatch matches Dispatch::Invoke {
                route,
                deadline_ms,
                path,
                fields,
                expect: awaited,
            } ==> path.endpoint == endpoint && path.cluster == cluster && path.command == command
                && fields@ == payload@ && awaited == expect),
    {
        match action {
            Action::Invoke { session, endpoint, cluster, command, payload, expect } => {
                let route = match self.route(session) {
                    None => {
                        return Dispatch::Exit(
                            LoopExit::Failed(
                                DriverError::Handshake(
                                    "CASE session required but not yet established",
                                ),
                            ),
                        );
                    },
                    Some(route) => route,
                };
                let connects = cluster == network_commissioning::CLUSTER_ID && command
                    == network_commissioning::CONNECT_NETWORK;
                Dispatch::Invoke {
                    route,
                    deadline_ms: self.request_deadline(session, connects),
                    path: CommandPath { endpoint, cluster, command },
                    fields: payload,
                    expect,
                }
            },
            Action::ReadAttribute { session, endpoint, cluster, attributes, expect } => {
                let route = match self.route(session) {
                    None => {
                        return Dispatch::Exit(
                            LoopExit::Failed(
                                DriverError::Handshake(
                                    "CASE session required but not yet established for ReadAttribute",
                                ),
                            ),
                        );
                    },
                    Some(route) => route,
                };
                let mut paths: Vec<AttributePath> = Vec::new();
                let mut i: usize = 0;
                while i < attributes.len()
                    invariant
                        i <= attributes@.len(),
                        paths@.len() == i,
                        forall|j: int|
                            0 <= j < i ==> #[trigger] paths@[j] == (AttributePath {
                                endpoint,
                                cluster,
                                attribute: attributes@[j],
                            }),
                    decreases attributes@.len() - i,
                {
                    paths.push(AttributePath { endpoint, cluster, attribute: attributes[i] });
                    i = i + 1;
                }
                proof {
                    assert(paths@ =~= attribute_paths(endpoint, cluster, attributes@));
                }
                Dispatch::Read {
                    route,
                    deadline_ms: self.request_deadline(session, false),
                    paths,
                    expect,
                }
            },
            Action::EstablishCase { fabric_id, peer_node_id } => Dispatch::EstablishCase {
                fabric_id,
                peer_node_id,
            },
            Action::Done(fabric) => Dispatch::Finish(fabric),
            Action::Abort { send_disarm_failsafe, reason } => Dispatch::Exit(
                LoopExit::Aborted { disarm: send_disarm_failsafe, reason },
            ),
            Action::EvictCase => Dispatch::Exit(
                LoopExit::Failed(
                    DriverError::Handshake(
                        "unexpected Action::EvictCase in M6 commission() loop (multi-fabric not implemented)",
                    ),
                ),
            ),
        }
    }

    /// Takes the credentials for the operational session. They are good for one
    /// attempt.
    pub fn take_credentials(&mut self) -> (r: Result<(), LoopExit>)
        ensures
            final(self)@ == after_credentials(old(self)@),
            r == (if credentials_refused(old(self)@) {
                Err::<(), LoopExit>(
                    LoopExit::Failed(
                        DriverError::Handshake(
                            "EstablishCase emitted more than once per commission() run",
                        ),
                    ),
                )
            } else {
                Ok(())
            }),
    {
        if self.credentials_taken {
            return Err(
                LoopExit::Failed(
                    DriverError::Handshake(
                        "EstablishCase emitted more than once per commission() run",
                    ),
                ),
            );
        }
        self.credentials_taken = true;
        Ok(())
    }

    /// Takes what came of setting up the operational session. Of a failure the
    /// state machine hears that it failed; the result is what it waits for.
    pub fn on_case(&mut self, session: Option<(u16, Endpoint)>) -> (failed: Option<Expectation>)
        ensures
            final(self)@ == after_case(old(self)@, session),
            failed == (if session is Some {
                None
            } else {
                Some(Expectation::CaseFailed)
            }),
    {
        match session {
            Some(slot) => {
                self.case_slot = Some(slot);
                None
            },
            None => Some(Expectation::CaseFailed),
        }
    }
}

/// What the state machine hears of a read.
#[derive(Debug)]
pub struct ReadFeed {
    /// What it waits for.
    pub payload: Vec<u8>,
    /// How long the device may take to join a network, if it said so.
    pub connect_max_time_seconds: Option<u16>,
}

/// The time for joining a network that goes along with what is read.
pub open spec fn feed_time(
    expect: Expectation,
    attributes: Seq<(AttributePath, Value)>,
) -> Option<u16> {
    if expect == Expectation::NetworkCommissioningInfo {
        connect_max_time(attributes)
    } else {
        None
    }
}

/// Decides what the state machine hears of a read.
pub fn read_feed(expect: Expectation, report: &ReportData) -> (r: Result<ReadFeed, LoopExit>)
    ensures
        match read_payload(expect, report.attributes@) {
            Ok(view) => {
                &&& r matches Ok(feed)
                &&& feed.payload@ == view
                &&& feed.connect_max_time_seconds == (if expect
                    == Expectation::NetworkCommissioningInfo {
                    connect_max_time(report.attributes@)
                } else {
                    None
                })
                &&& feed.connect_max_time_seconds == feed_time(expect, report.attributes@)
            },
            Err(e) => r == Err::<ReadFeed, LoopExit>(LoopExit::Failed(e)),
        },
{
    let payload = match extract_read_payload(expect, report) {
        Err(e) => {
            return Err(LoopExit::Failed(e));
        },
        Ok(payload) => payload,
    };
    let connect_max_time_seconds = match expect {
        Expectation::NetworkCommissioningInfo => extract_connect_max_time_seconds(report),
        _ => None,
    };
    Ok(ReadFeed { payload, connect_max_time_seconds })
}

/// The state machine hears the code of a bare status, and success only of a
/// code that is 0.
pub proof fn law_status_is_heard(code: u8, status: ImStatus)
    requires
        status == (if code == 0 {
            ImStatus::Success
        } else {
            ImStatus::Failure(code)
        }),
    ensures
        invoke_payload(InvokeOutcome::Status(status)) == seq![code],
{
}

/// The features that a device reports are those that the state machine reads.
pub proof fn law_features_are_heard(attributes: Seq<(AttributePath, Value)>, features: u64)
    requires
        find_attribute(
            attributes,
            network_commissioning::CLUSTER_ID,
            network_commissioning::FEATURE_MAP,
        ) == Some(Value::Uint(features)),
    ensures
        read_payload(Expectation::NetworkCommissioningInfo, attributes) is Ok,
        first_uint(
            decode_all(read_payload(Expectation::NetworkCommissioningInfo, attributes)->Ok_0),
        ) == Some(features),
{
    law_attribute_roundtrip(Tag::Anonymous, features);
}

/// Nothing goes over the operational session before it is set up, and then all
/// of it goes to the node that was found.
pub proof fn law_case_traffic(state: LoopView, slot: (u16, Endpoint))
    ensures
        state.case_slot is None ==> route_for(state, SessionContext::Case) is None,
        state.case_slot == Some(slot) ==> route_for(state, SessionContext::Case) == Some(
            Route::Case { session_id: slot.0, endpoint: slot.1 },
        ),
        route_for(state, SessionContext::Pase) == Some(Route::Pase),
{
}

/// The limits that a device reports are those that the state machine reads.
pub proof fn law_limits_are_heard(
    attributes: Seq<(AttributePath, Value)>,
    info: BasicCommissioningInfo,
)
    requires
        find_attribute(
            attributes,
            general_commissioning::CLUSTER_ID,
            BASIC_COMMISSIONING_INFO,
        ) matches Some(Value::Structure(members)) && members@ == seq![
            (Tag::Context(0), Value::Uint(info.failsafe_expiry_length_seconds as u64)),
            (Tag::Context(1), Value::Uint(info.max_cumulative_failsafe_seconds as u64)),
        ],
    ensures
        read_payload(Expectation::CommissioningInfo, attributes) is Ok,
        basic_commissioning_info(
            read_payload(Expectation::CommissioningInfo, attributes)->Ok_0,
        ) == Some(info),
{
    let value = find_attribute(
        attributes,
        general_commissioning::CLUSTER_ID,
        BASIC_COMMISSIONING_INFO,
    )->Some_0;
    let members = value->Structure_0@;
    let first = at(0, Scalar::Uint(info.failsafe_expiry_length_seconds as u64));
    let second = at(1, Scalar::Uint(info.max_cumulative_failsafe_seconds as u64));
    let one = members.subrange(0, 1);
    assert(value_items(members[0].0, members[0].1) =~= seq![first]);
    assert(value_items(members[1].0, members[1].1) =~= seq![second]);
    reveal_with_fuel(member_items, 2);
    assert(member_items(one) =~= seq![first]);
    assert(member_items(members) =~= seq![first, second]);
    law_limits_are_read(info);
    assert(value_items(Tag::Anonymous, value) =~= seq![struct_start()] + seq![first, second]
        + seq![Item::End]);
}

/// A command that the state machine asks for is the one that is sent: its
/// endpoint, cluster, command and fields, over the session that it names, and
/// what the state machine waits for stays. It fails only where the operational
/// session is named and does not stand yet.
pub proof fn law_command_is_sent<F>(
    state: LoopView,
    session: SessionContext,
    endpoint: u16,
    cluster: u32,
    command: u32,
    payload: Vec<u8>,
    expect: Expectation,
    dispatch: Dispatch<F>,
)
    requires
        dispatches(
            state,
            Action::<F>::Invoke { session, endpoint, cluster, command, payload, expect },
            dispatch,
        ),
    ensures
        session == SessionContext::Pase || state.case_slot is Some ==> dispatch is Invoke,
        session == SessionContext::Case && state.case_slot is None ==> dispatch matches Dispatch::Exit(
            LoopExit::Failed(DriverError::Handshake(_)),
        ),
        dispatch matches Dispatch::Invoke { route, deadline_ms, path, fields, expect: awaited } ==> {
            &&& path.endpoint == endpoint
            &&& path.cluster == cluster
            &&& path.command == command
            &&& fields@ == payload@
            &&& awaited == expect
            &&& session == SessionContext::Pase ==> route is Pase
            &&& session == SessionContext::Case ==> (route matches Route::Case {
                session_id,
                endpoint: at,
            } && state.case_slot == Some((session_id, at)))
        },
{
}

/// How long the answer to a command may take: over the first session of a
/// transport that is reliable by itself a minute for joining a network and half a
/// minute for anything else; everywhere else the exchange gives up by itself.
pub proof fn law_command_deadline<F>(
    state: LoopView,
    session: SessionContext,
    endpoint: u16,
    cluster: u32,
    command: u32,
    payload: Vec<u8>,
    expect: Expectation,
    dispatch: Dispatch<F>,
)
    requires
        dispatches(
            state,
            Action::<F>::Invoke { session, endpoint, cluster, command, payload, expect },
            dispatch,
        ),
    ensures
        dispatch matches Dispatch::Invoke { route, deadline_ms, path, fields, expect: awaited } ==> {
            if session == SessionContext::Pase && state.reliability
                == TransportReliability::TransportProvides {
                if cluster == 0x31 && command == 0x06 {
                    deadline_ms == Some(60_000u64)
                } else {
                    deadline_ms == Some(30_000u64)
                }
            } else {
                deadline_ms is None
            }
        },
{
}

/// Commands that differ are sent to paths that differ.
pub proof fn law_commands_stay_apart<F>(
    state: LoopView,
    one: Action<F>,
    other: Action<F>,
    first: Dispatch<F>,
    second: Dispatch<F>,
)
    requires
        dispatches(state, one, first),
        dispatches(state, other, second),
        one is Invoke,
        other is Invoke,
        first is Invoke,
        second is Invoke,
        first->Invoke_path == second->Invoke_path,
    ensures
        one->Invoke_endpoint == other->Invoke_endpoint,
        one->Invoke_cluster == other->Invoke_cluster,
        one->Invoke_command == other->Invoke_command,
{
}

/// The attributes that the state machine asks for are those that are read, one
/// path for each and in their order, over the session that it names, within half
/// a minute over the first session of a transport that is reliable by itself.
pub proof fn law_attributes_are_read<F>(
    state: LoopView,
    session: SessionContext,
    endpoint: u16,
    cluster: u32,
    attributes: Vec<u32>,
    expect: Expectation,
    dispatch: Dispatch<F>,
)
    requires
        dispatches(
            state,
            Action::<F>::ReadAttribute { session, endpoint, cluster, attributes, expect },
            dispatch,
        ),
    ensures
        session == SessionContext::Pase || state.case_slot is Some ==> dispatch is Read,
        session == SessionContext::Case && state.case_slot is None ==> dispatch matches Dispatch::Exit(
            LoopExit::Failed(DriverError::Handshake(_)),
        ),
        dispatch matches Dispatch::Read { route, deadline_ms, paths, expect: awaited } ==> {
            &&& paths@.len() == attributes@.len()
            &&& forall|i: int|
                0 <= i < attributes@.len() ==> {
                    let path = #[trigger] paths@[i];
                    path.endpoint == endpoint && path.cluster == cluster && path.attribute
                        == attributes@[i]
                }
            &&& awaited == expect
            &&& session == SessionContext::Pase ==> route is Pase
            &&& session == SessionContext::Case ==> (route matches Route::Case {
                session_id,
                endpoint: at,
            } && state.case_slot == Some((session_id, at)))
            &&& deadline_ms == (if session == SessionContext::Pase && state.reliability
                == TransportReliability::TransportProvides {
                Some(30_000u64)
            } else {
                None
            })
        },
{
}

/// What the state machine says about the end of a run, and about the operational
/// session, is what happens: a fabric ends the run well, giving up ends it with
/// the reason and with the wish to disarm or not, and an operational session is
/// set up for the fabric and the node that are named.
pub proof fn law_ends_and_sessions<F>(state: LoopView, action: Action<F>, dispatch: Dispatch<F>)
    requires
        dispatches(state, action, dispatch),
    ensures
        action matches Action::Done(fabric) ==> (dispatch matches Dispatch::Finish(end) && end
            == fabric),
        action matches Action::Abort { send_disarm_failsafe, reason } ==> (
        dispatch matches Dispatch::Exit(LoopExit::Aborted { disarm, reason: told }) && disarm
            == send_disarm_failsafe && told == reason),
        action matches Action::EstablishCase { fabric_id, peer_node_id } ==> (
        dispatch matches Dispatch::EstablishCase { fabric_id: fabric, peer_node_id: node } && fabric
            == fabric_id && node == peer_node_id),
        action is EvictCase ==> dispatch matches Dispatch::Exit(
            LoopExit::Failed(DriverError::Handshake(_)),
        ),
        dispatch is Finish ==> action is Done,
{
}

/// The state machine hears the fields of a response command as they came.
pub proof fn law_fields_are_heard(fields: Vec<u8>, code: u8)
    ensures
        invoke_payload(InvokeOutcome::Command(fields)) == fields@,
        invoke_payload(InvokeOutcome::Status(ImStatus::Success)) == seq![0u8],
        invoke_payload(InvokeOutcome::Status(ImStatus::Failure(code))) == seq![code],
{
}

/// The value that is found for an attribute is that of the first entry with its
/// cluster and its number; there is none only where no entry has both.
pub proof fn law_first_entry_counts(
    attributes: Seq<(AttributePath, Value)>,
    cluster: u32,
    attribute: u32,
    i: int,
)
    requires
        0 <= i < attributes.len(),
        attributes[i].0.cluster == cluster,
        attributes[i].0.attribute == attribute,
        forall|j: int|
            0 <= j < i ==> (#[trigger] attributes[j]).0.cluster != cluster
                || attributes[j].0.attribute != attribute,
    ensures
        find_attribute(attributes, cluster, attribute) == Some(attributes[i].1),
    decreases attributes.len(),
{
    if i > 0 {
        let rest = attributes.skip(1);
        assert(attributes[0].0.cluster != cluster || attributes[0].0.attribute != attribute);
        assert forall|j: int| 0 <= j < i - 1 implies (#[trigger] rest[j]).0.cluster != cluster
            || rest[j].0.attribute != attribute by {
            assert(rest[j] == attributes[j + 1]);
        }
        law_first_entry_counts(rest, cluster, attribute, i - 1);
    }
}

/// An attribute that no entry is about is not found.
pub proof fn law_absent_attribute(
    attributes: Seq<(AttributePath, Value)>,
    cluster: u32,
    attribute: u32,
)
    requires
        forall|j: int|
            0 <= j < attributes.len() ==> (#[trigger] attributes[j]).0.cluster != cluster
                || attributes[j].0.attribute != attribute,
    ensures
        find_attribute(attributes, cluster, attribute) is None,
    decreases attributes.len(),
{
    if attributes.len() > 0 {
        let rest = attributes.skip(1);
        assert forall|j: int| 0 <= j < rest.len() implies (#[trigger] rest[j]).0.cluster != cluster
            || rest[j].0.attribute != attribute by {
            assert(rest[j] == attributes[j + 1]);
        }
        law_absent_attribute(rest, cluster, attribute);
    }
}

/// What a read has to report: the features of the network interfaces are
/// attribute 0xFFFC of cluster 0x31 and a number, the limits of the device
/// attribute 1 of cluster 0x30. Without them, or for anything else, there is an
/// error.
pub proof fn law_what_a_read_reports(
    expect: Expectation,
    attributes: Seq<(AttributePath, Value)>,
)
    ensures
        expect == Expectation::NetworkCommissioningInfo ==> (read_payload(expect, attributes) is Ok
            <==> find_attribute(attributes, 0x31, 0xFFFC) matches Some(Value::Uint(_))),
        expect == Expectation::CommissioningInfo ==> (read_payload(expect, attributes) is Ok
            <==> find_attribute(attributes, 0x30, 0x0001) is Some),
        expect != Expectation::NetworkCommissioningInfo && expect
            != Expectation::CommissioningInfo ==> read_payload(expect, attributes) is Err,
        connect_max_time(attributes) matches Some(seconds) ==> find_attribute(
            attributes,
            0x31,
            0x0009,
        ) == Some(Value::Uint(seconds as u64)),
        find_attribute(attributes, 0x31, 0x0009) matches Some(Value::Uint(seconds)) ==> (seconds
            <= 0xFFFF ==> connect_max_time(attributes) == Some(seconds as u16)),
{
}

/// The failsafe is left alone at the end of a failed run only if the state
/// machine said so.
pub proof fn law_failsafe_is_disarmed(exit: LoopExit)
    ensures
        exit is Failed ==> disarms(exit),
        exit matches LoopExit::Aborted { disarm, reason } ==> disarms(exit) == disarm,
{
}

/// Flushing sends every packet that a timer asks for, in order: what comes of
/// events one behind the other is what comes of each.
pub proof fn law_flush_sends_everything(before: Seq<MrpEvent>, event: MrpEvent)
    ensures
        event matches MrpEvent::Retransmit { packet } ==> all_packets(before.push(event))
            == all_packets(before).push(packet@),
        event matches MrpEvent::SendStandaloneAck { packet } ==> all_packets(before.push(event))
            == all_packets(before).push(packet@),
        event is Expired || event is Other ==> all_packets(before.push(event)) == all_packets(
            before,
        ),
        all_packets(Seq::empty()) == Seq::<Seq<u8>>::empty(),
{
    assert(before.push(event).drop_last() =~= before);
}

/// How long the operational record is looked for: half a minute on a network, a
/// minute after joining one; and a device to commission for five seconds.
pub proof fn law_search_budgets()
    ensures
        RESOLVE_POLL_ATTEMPTS * RESOLVE_POLL_INTERVAL_MS == 30_000,
        BLE_RESOLVE_POLL_ATTEMPTS * RESOLVE_POLL_INTERVAL_MS == 60_000,
        COMMISSIONABLE_POLL_ATTEMPTS * RESOLVE_POLL_INTERVAL_MS == 5_000,
{
}

/// What comes of an answer to an invoke is what the device said: the fields of its
/// command, or its status.
pub proof fn law_answers_stay(response: InvokeResponse)
    ensures
        response matches InvokeResponse::Command { path, fields_tlv } ==> (outcome_of(
            response,
        ) matches InvokeOutcome::Command(fields) && fields@ == fields_tlv@),
        response matches InvokeResponse::Status(status) ==> (outcome_of(
            response,
        ) matches InvokeOutcome::Status(kept) && kept == status),
{
}

/// A flush waits for a timer that runs off within half a second, until it does,
/// and for no other.
pub proof fn law_flush_waits(deadline_ms: Option<u64>, now_ms: u64)
    ensures
        flush_delay(deadline_ms, now_ms) is Some <==> (deadline_ms matches Some(deadline)
            && deadline <= now_ms + 500),
        flush_delay(deadline_ms, now_ms) matches Some(wait) ==> (if deadline_ms->Some_0 >= now_ms {
            now_ms + wait == deadline_ms->Some_0
        } else {
            wait == 0
        }),
{
}

/// Only a transport that is reliable by itself has deadlines: a minute for joining
/// a network, half a minute for anything else.
pub proof fn law_deadlines(reliability: TransportReliability, is_connect_network: bool)
    ensures
        deadline(reliability, is_connect_network) is None <==> reliability
            == TransportReliability::Mrp,
        deadline(reliability, is_connect_network) matches Some(ms) ==> ms == (
        if is_connect_network {
            60_000int
        } else {
            30_000
        }),
{
}

/// The error of a run that ends is the reason for it, as it was given.
pub proof fn law_exit_errors(exit: LoopExit)
    ensures
        exit matches LoopExit::Failed(cause) ==> exit_error(exit) == cause,
        exit matches LoopExit::Aborted { disarm, reason } ==> (exit_error(
            exit,
        ) matches DriverError::Aborted(text) && text == reason),
{
}

/// Credentials are handed out once: the first time they are asked for, and never
/// again, whatever becomes of the operational session in between.
pub proof fn law_credentials_once(state: LoopView, session: Option<(u16, Endpoint)>)
    ensures
        credentials_refused(after_credentials(state)),
        credentials_refused(after_case(after_credentials(state), session)),
        !state.credentials_taken ==> !credentials_refused(state) && !credentials_refused(
            after_case(state, session),
        ),
        after_credentials(state).case_slot == state.case_slot,
        after_credentials(state).reliability == state.reliability,
{
}

/// Once an operational session stands, commands for it go over it; a session that
/// could not be set up changes nothing.
pub proof fn law_operational_session_is_used<F>(
    state: LoopView,
    session_id: u16,
    at: Endpoint,
    endpoint: u16,
    cluster: u32,
    command: u32,
    payload: Vec<u8>,
    expect: Expectation,
    dispatch: Dispatch<F>,
)
    requires
        dispatches(
            after_case(state, Some((session_id, at))),
            Action::<F>::Invoke {
                session: SessionContext::Case,
                endpoint,
                cluster,
                command,
                payload,
                expect,
            },
            dispatch,
        ),
    ensures
        dispatch matches Dispatch::Invoke { route, deadline_ms, path, fields, expect: awaited }
            && (route matches Route::Case { session_id: id, endpoint: peer } && id == session_id
            && peer == at) && deadline_ms is None && path.command == command,
        after_case(state, None) == state,
        after_case(state, Some((session_id, at))).reliability == state.reliability,
{
}

/// The time for joining a network is handed on with the features of the network
/// interfaces: attribute 9 of cluster 0x31, if it is a number of 16 bits.
pub proof fn law_joining_time(
    expect: Expectation,
    attributes: Seq<(AttributePath, Value)>,
    seconds: u16,
)
    ensures
        expect == Expectation::NetworkCommissioningInfo ==> (feed_time(expect, attributes) == Some(
            seconds,
        ) <==> find_attribute(attributes, 0x31, 9) == Some(Value::Uint(seconds as u64))),
        expect != Expectation::NetworkCommissioningInfo ==> feed_time(expect, attributes) is None,
{
}

} // verus!
