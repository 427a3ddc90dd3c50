use matter_commissioning::clusters::general_commissioning::{
    decode_arm_fail_safe_fields, decode_basic_commissioning_info, ARM_FAIL_SAFE,
    CLUSTER_ID as GENERAL_COMMISSIONING,
};
use matter_commissioning::clusters::network_commissioning::{
    decode_feature_map, NetworkCommissioningFeature, CLUSTER_ID as NETWORK_COMMISSIONING,
    CONNECT_MAX_TIME_SECONDS, CONNECT_NETWORK, FEATURE_MAP,
};
use matter_commissioning::driver::commission::{
    ble_profile, conclude_run, deadline_missed, disarm_on_exit, extract_connect_max_time_seconds,
    extract_read_payload, flush_packets, flush_wait, invoke_outcome, ip_profile, read_feed,
    response_deadline, response_payload, rollback_command, stream_peer, Action, Dispatch,
    InvokeOutcome, LoopExit, PollLoop, Route, BASIC_COMMISSIONING_INFO,
};
use matter_commissioning::driver::discovery::{
    commissionable_failure, discovery_failure_message, operational_instance_name, parse_number,
    pick_commissionable, plan_browses, preferred_address, Browse, CommissionableRecord,
    CommissionableSearch, Endpoint,
    IpAddress, OperationalSearch, ServiceRecord, RESOLVE_POLL_ATTEMPTS, SEEN_SAMPLE_MAX,
};
use matter_commissioning::driver::error::{DriverError, TransportFault};
use matter_commissioning::driver::exchange::{
    is_unsecured, on_timer, round_trip_step, sleep_for, Inbound, MrpEvent, ReadStep,
    ReadTransaction, RoundTripStep, IDLE_SLEEP_MS, MAX_READ_BYTES, MAX_READ_CHUNKS,
};
use matter_commissioning::driver::handshake::{
    conclude_pase, Handshake, HandshakeKind, HandshakeStep,
};
use matter_commissioning::driver::names::names_match;
use matter_commissioning::driver::unsecured::{
    decode_unsecured, encode_unsecured, parse_status_report, require_handshake_opcode, PendingSend,
    ProtocolId, Reception, UnsecuredExchange, UnsecuredMessage, MAX_ATTEMPTS,
    OPCODE_MRP_STANDALONE_ACK, RESPONSE_TIMEOUT_MS, RETRANSMIT_MS,
};
use matter_commissioning::driver::TransportReliability;
use matter_commissioning::tlv::{Tag, TlvWriter, Value};
use matter_commissioning::{
    AttributePath, CommandPath, Expectation, ImError, ImStatus, InvokeResponse, ReportData,
    SessionContext,
};

// ---- discovery --------------------------------------------------------------

#[test]
fn discovery_failure_message_distinguishes_nothing_seen_from_others_seen() {
    let target = "F52AC107C954E38E-0000000000000002";

    let none = discovery_failure_message(target, &[]);
    assert!(none.contains("not found via mDNS"), "substring is load-bearing");
    assert!(none.contains("saw 0 operational mDNS records"), "got: {none}");

    let others = discovery_failure_message(
        target,
        &["F52AC107C954E38E-0000000000000003", "F52AC107C954E38E-0000000000000004"],
    );
    assert!(others.contains("not found via mDNS"), "substring is load-bearing");
    assert!(
        others.contains(
            "saw 2 operational mDNS record(s), none matching: \
             F52AC107C954E38E-0000000000000003, \
             F52AC107C954E38E-0000000000000004"
        ),
        "got: {others}"
    );
}

#[test]
fn discovery_failure_message_is_bounded_in_names_and_length() {
    let owned: Vec<String> = (0..20).map(|i| format!("NODE-{i:016X}")).collect();
    let names: Vec<&str> = owned.iter().map(String::as_str).collect();
    let msg = discovery_failure_message("T", &names);
    assert!(msg.contains("saw 20 operational mDNS record(s)"), "got: {msg}");
    assert!(msg.contains("… 15 more"), "got: {msg}");
    assert_eq!(msg.matches("NODE-").count(), SEEN_SAMPLE_MAX);

    let long = "X".repeat(500);
    let msg = discovery_failure_message("T", &[&long]);
    assert!(msg.contains('…'), "over-long name must be elided: {msg}");
    assert!(msg.len() < 200, "message must stay bounded, got {} chars", msg.len());
}

#[test]
fn operational_instance_name_formats_16_16_uppercase_hex() {
    let cfid = [0x87, 0xe1, 0xb0, 0x04, 0xe2, 0x35, 0xa1, 0x30];
    let node_id: u64 = 0x0000_0000_0000_0001;
    assert_eq!(operational_instance_name(cfid, node_id), "87E1B004E235A130-0000000000000001");
}

const CFID: [u8; 8] = [0x87, 0xe1, 0xb0, 0x04, 0xe2, 0x35, 0xa1, 0x30];
const V4: IpAddress = IpAddress::V4(0xC0A8_01F8);
const LINK_LOCAL: IpAddress = IpAddress::V6(0xfe80_0000_0000_0000_0000_0000_0000_1d42);
const ULA: IpAddress = IpAddress::V6(0xfdfc_20da_4273_126f_0000_0000_0000_0001);

fn record(instance_name: &str, addresses: Vec<IpAddress>) -> ServiceRecord {
    ServiceRecord { instance_name: instance_name.to_string(), addresses, port: 5540 }
}

#[test]
fn a_search_finds_the_matching_address() {
    let name = operational_instance_name(CFID, 1);
    let mut search = OperationalSearch::new(CFID, 1, RESOLVE_POLL_ATTEMPTS);
    assert!(search.start_round());
    let records = vec![record("OTHER", vec![V4]), record(&name, vec![IpAddress::V4(0xC000_0207)])];
    assert_eq!(
        search.on_records(&records),
        Some((1, Endpoint { address: IpAddress::V4(0xC000_0207), port: 5540 }))
    );
}

#[test]
fn a_search_prefers_routable_addresses() {
    let name = operational_instance_name(CFID, 1);
    let mut search = OperationalSearch::new(CFID, 1, 2);
    assert!(search.start_round());
    let found = search.on_records(&vec![record(&name, vec![LINK_LOCAL, ULA, V4])]).unwrap();
    assert_eq!(found.1.address, V4);
    let found = search.on_records(&vec![record(&name, vec![LINK_LOCAL, ULA])]).unwrap();
    assert_eq!(found.1.address, ULA);
    let found = search.on_records(&vec![record(&name, vec![LINK_LOCAL])]).unwrap();
    assert_eq!(found.1.address, LINK_LOCAL);
    assert_eq!(search.on_records(&vec![record(&name, vec![])]), None);
    assert_eq!(preferred_address(&[]), None);
    assert_eq!(preferred_address(&[ULA, V4]), Some(V4));
    let segment = |first: u128| IpAddress::V6((first << 112) | 1);
    for (first, local) in [(0xFE7F, false), (0xFE80, true), (0xFEBF, true), (0xFEC0, false)] {
        let picked = preferred_address(&[segment(first), ULA]).unwrap();
        assert_eq!(picked == ULA, local, "{first:x}");
    }
}

#[test]
fn names_are_compared_without_case() {
    assert!(names_match("87E1B004e235a130", "87e1b004E235A130"));
    assert!(!names_match("87E1B004E235A130", "87E1B004E235A131"));
    assert!(!names_match("87E1", "87E10"));
}

#[test]
fn a_search_succeeds_within_its_budget() {
    let name = operational_instance_name(CFID, 1);
    let mut search = OperationalSearch::new(CFID, 1, 3);
    let mut polls: u32 = 0;
    let mut found = None;
    while found.is_none() && search.start_round() {
        polls += 1;
        let records = if polls >= 3 { vec![record(&name, vec![V4])] } else { vec![] };
        found = search.on_records(&records);
    }
    assert_eq!(polls, 3, "must poll exactly until the record appears");
    assert_eq!(found.unwrap().1, Endpoint { address: V4, port: 5540 });
}

#[test]
fn a_search_respects_its_budget() {
    let mut search = OperationalSearch::new(CFID, 1, 4);
    let mut polls: u32 = 0;
    while search.start_round() {
        polls += 1;
        assert_eq!(search.on_records(&vec![record("B", vec![V4]), record("A", vec![])]), None);
    }
    assert_eq!(polls, 4, "must poll exactly the budget then stop");
    match search.failure() {
        DriverError::Discovery(text) => {
            assert!(text.contains("saw 2 operational mDNS record(s), none matching: A, B"), "{text}")
        }
        other => panic!("expected Discovery, got {other:?}"),
    }
}

#[test]
fn browses_are_planned_once_each() {
    let broken = TransportFault::Other;
    assert_eq!(
        plan_browses(Ok(42), Ok(1)).unwrap(),
        vec![(Browse::Subtype, 42), (Browse::Base, 1)]
    );
    assert_eq!(plan_browses(Ok(1), Ok(1)).unwrap(), vec![(Browse::Subtype, 1)]);
    assert_eq!(plan_browses(Err(broken), Ok(1)).unwrap(), vec![(Browse::Base, 1)]);
    assert_eq!(plan_browses(Ok(42), Err(broken)).unwrap(), vec![(Browse::Subtype, 42)]);
    assert!(matches!(
        plan_browses(Err(broken), Err(TransportFault::Unsupported)),
        Err(DriverError::Transport(TransportFault::Unsupported))
    ));
}

fn commissionable(discriminator: &str, mode: Option<&str>, address: u32) -> CommissionableRecord {
    CommissionableRecord {
        discriminator: Some(discriminator.to_string()),
        commissioning_mode: mode.map(|m| m.to_string()),
        addresses: vec![IpAddress::V4(address)],
        port: 5540,
    }
}

#[test]
fn commissionable_matches_discriminator() {
    let records = vec![commissionable("3840", None, 0xC000_022A)];
    assert_eq!(
        pick_commissionable(&records, 0xF00),
        Some(Endpoint { address: IpAddress::V4(0xC000_022A), port: 5540 })
    );
}

#[test]
fn commissionable_matches_short_discriminator_from_manual_code() {
    let records = vec![commissionable("1204", Some("1"), 0xC0A8_01F8)];
    assert_eq!(
        pick_commissionable(&records, 0x0400),
        Some(Endpoint { address: V4, port: 5540 })
    );
    assert_eq!(pick_commissionable(&records, 0x0500), None);
}

#[test]
fn a_full_discriminator_beats_a_short_one() {
    let records = vec![commissionable("1204", None, 1), commissionable("1024", None, 2)];
    assert_eq!(pick_commissionable(&records, 1024).unwrap().address, IpAddress::V4(2));
    assert_eq!(pick_commissionable(&records[..1].to_vec(), 1024).unwrap().address, IpAddress::V4(1));
}

#[test]
fn closed_commissioning_windows_are_skipped() {
    let records = vec![commissionable("1024", Some("0"), 1), commissionable("1024", Some("2"), 2)];
    assert_eq!(pick_commissionable(&records, 1024).unwrap().address, IpAddress::V4(2));
    match commissionable_failure(1024) {
        DriverError::Discovery(text) => assert_eq!(
            text,
            "commissionable device with discriminator 1024 (short 0x4) not found via mDNS"
        ),
        other => panic!("expected Discovery, got {other:?}"),
    }
}

#[test]
fn numbers_in_records_are_parsed() {
    assert_eq!(parse_number("0"), Some(0));
    assert_eq!(parse_number("65535"), Some(65535));
    assert_eq!(parse_number("+7"), Some(7));
    for bad in ["", "+", "-1", "65536", "12a", " 1"] {
        assert_eq!(parse_number(bad), None, "{bad:?}");
    }
}

// ---- unsecured exchanges ----------------------------------------------------

#[test]
fn unsecured_roundtrip_preserves_fields() {
    let wire = encode_unsecured(
        0x8000_0001,
        42,
        0x22,
        ProtocolId::secure_channel(),
        true,
        true,
        Some(7),
        None,
        b"pake1-bytes",
    );
    let msg = decode_unsecured(&wire).unwrap();
    assert_eq!(msg.message_counter, 0x8000_0001);
    assert_eq!(msg.exchange_id, 42);
    assert_eq!(msg.opcode, 0x22);
    assert_eq!(msg.protocol_id, ProtocolId::secure_channel());
    assert!(msg.is_initiator);
    assert_eq!(msg.ack_counter, Some(7));
    assert_eq!(msg.payload, b"pake1-bytes");
}

/// A frame of a secured session.
fn secured_frame(session_id: u16, counter: u32, tail: &[u8]) -> Vec<u8> {
    let mut wire = vec![0x00];
    wire.extend_from_slice(&session_id.to_le_bytes());
    wire.push(0x00);
    wire.extend_from_slice(&counter.to_le_bytes());
    wire.extend_from_slice(tail);
    wire
}

#[test]
fn unsecured_rejects_secured_session_id() {
    let wire = secured_frame(5, 1, &[0u8; 6]);
    let err = decode_unsecured(&wire).unwrap_err();
    assert!(matches!(err, DriverError::UnexpectedSecuredMessage(5)));
    assert_eq!(
        err.message(),
        "expected unsecured (session-id 0) message, got session id 5"
    );
}

#[test]
fn unsecured_rejects_truncated_frames() {
    let wire = encode_unsecured(
        1,
        2,
        0x22,
        ProtocolId { vendor: 0xFFF1, protocol: 9 },
        false,
        true,
        Some(7),
        Some(8),
        &[],
    );
    assert_eq!(decode_unsecured(&wire).unwrap().protocol_id.vendor, 0xFFF1);
    for cut in 0..wire.len() {
        assert!(matches!(
            decode_unsecured(&wire[..cut]),
            Err(DriverError::Transport(TransportFault::Truncated))
        ));
    }
}

fn reply(counter: u32, exchange_id: u16, opcode: u8, ack: u32, payload: &[u8]) -> Vec<u8> {
    encode_unsecured(
        counter,
        exchange_id,
        opcode,
        ProtocolId::secure_channel(),
        false,
        true,
        Some(ack),
        None,
        payload,
    )
}

fn begin(opcode: u8, expected: u8, payload: &[u8]) -> (UnsecuredExchange, PendingSend) {
    let mut exch = UnsecuredExchange::new(1, 7, 0xE0E0);
    let pending = exch.begin(opcode, expected, payload, None);
    (exch, pending)
}

fn delivered(reception: Reception) -> UnsecuredMessage {
    match reception {
        Reception::Delivered(msg) => msg,
        _ => panic!("expected an answer"),
    }
}

#[test]
fn unsecured_send_and_recv_roundtrips() {
    let (mut exch, mut pending) = begin(0x20, 0x21, b"req");
    let plan = exch.plan(&mut pending);
    assert!(plan.transmit);
    assert_eq!(plan.wait_ms, RETRANSMIT_MS);
    let sent = decode_unsecured(pending.wire()).unwrap();
    assert_eq!(sent.opcode, 0x20);
    assert_eq!(sent.payload, b"req");
    assert_eq!(sent.source_node_id, Some(0xE0E0));
    let got = exch.on_packet(&mut pending, &reply(100, 7, 0x21, sent.message_counter, b"resp"));
    let got = delivered(got);
    assert_eq!(got.opcode, 0x21);
    assert_eq!(got.payload, b"resp");
}

#[test]
fn unsecured_standalone_ack_has_expected_shape() {
    let mut exch = UnsecuredExchange::new(5, 9, 0xE0E0);
    let pkt = exch.standalone_ack(7).unwrap();
    let msg = decode_unsecured(&pkt).unwrap();
    assert_eq!(msg.opcode, 0x10);
    assert!(msg.payload.is_empty());
    assert_eq!(msg.message_counter, 5);
    assert_eq!(msg.ack_counter, Some(7));
    assert!(msg.is_initiator);
    assert_eq!(msg.source_node_id, Some(0xE0E0));
}

fn status_message(general: u16, code: u16) -> UnsecuredMessage {
    let mut payload = Vec::new();
    payload.extend_from_slice(&general.to_le_bytes());
    payload.extend_from_slice(&0u32.to_le_bytes());
    payload.extend_from_slice(&code.to_le_bytes());
    UnsecuredMessage {
        message_counter: 1,
        exchange_id: 1,
        opcode: 0x40,
        protocol_id: ProtocolId::secure_channel(),
        is_initiator: false,
        ack_counter: None,
        source_node_id: None,
        payload,
    }
}

#[test]
fn status_report_parses_success_and_failure() {
    let ok = parse_status_report(&status_message(0, 0)).unwrap();
    assert!(ok.is_session_establishment_success());
    let no = parse_status_report(&status_message(1, 0x0002)).unwrap();
    assert!(!no.is_session_establishment_success());
    assert_eq!(no.general_code, 1);
    assert_eq!(no.protocol_code, 0x0002);
    let mut wrong = status_message(0, 0);
    wrong.opcode = 0x21;
    assert!(parse_status_report(&wrong).is_err());
    let mut short = status_message(0, 0);
    short.payload.truncate(7);
    assert!(parse_status_report(&short).is_err());
}

#[test]
fn unsecured_encode_carries_source_node_id() {
    let wire = encode_unsecured(
        1,
        7,
        0x20,
        ProtocolId::secure_channel(),
        true,
        true,
        None,
        Some(0x1122_3344_5566_7788),
        b"req",
    );
    assert_eq!(wire[0] & 0b0000_0100, 0b0000_0100, "S flag must be set");
    assert_eq!(wire[8..16], 0x1122_3344_5566_7788u64.to_le_bytes());
    let msg = decode_unsecured(&wire).unwrap();
    assert_eq!(msg.source_node_id, Some(0x1122_3344_5566_7788));
}

#[test]
fn unsecured_frame_bytes() {
    let wire = encode_unsecured(
        0x0403_0201,
        0x0605,
        0x22,
        ProtocolId::secure_channel(),
        true,
        true,
        Some(0x0A09_0807),
        None,
        &[0xEE],
    );
    assert_eq!(
        wire,
        vec![0, 0, 0, 0, 1, 2, 3, 4, 0x07, 0x22, 5, 6, 0, 0, 7, 8, 9, 10, 0xEE]
    );
}

#[test]
fn unsecured_exchange_frames_carry_source_node_id() {
    let mut exch = UnsecuredExchange::new(5, 9, 0xABCD);
    let pkt = exch.standalone_ack(3).unwrap();
    let msg = decode_unsecured(&pkt).unwrap();
    assert_eq!(msg.source_node_id, Some(0xABCD));
}

#[test]
fn unsecured_new_ephemeral_seeds_counter_and_node_id() {
    let mut exch = UnsecuredExchange::new_ephemeral(9).unwrap();
    let pkt = exch.standalone_ack(3).unwrap();
    let msg = decode_unsecured(&pkt).unwrap();
    let node_id = msg.source_node_id.expect("ephemeral node id present");
    assert_ne!(node_id, 0, "node id must be nonzero (operational range)");
    assert_ne!(msg.message_counter, 0, "counter must be nonzero");
    assert!(msg.message_counter <= 0x0FFF_FFFF + 1, "counter seeded as random 28-bit + 1");
    let mut other = UnsecuredExchange::new_ephemeral(9).unwrap();
    assert_ne!(other.standalone_ack(3).unwrap(), pkt);
}

#[test]
fn a_reliable_transport_needs_no_acknowledgement() {
    let mut exch = UnsecuredExchange::new_ephemeral_with(9, TransportReliability::TransportProvides)
        .unwrap();
    assert_eq!(exch.standalone_ack(3), None);
    let mut pending = exch.begin(0x20, 0x21, b"req", None);
    let plan = exch.plan(&mut pending);
    assert!(plan.transmit);
    assert_eq!(plan.wait_ms, RESPONSE_TIMEOUT_MS);
    assert!(!exch.plan(&mut pending).transmit);
    assert!(matches!(
        exch.on_timeout(&mut pending),
        Some(DriverError::Timeout { exchange_id: 9 })
    ));
}

#[test]
fn unsecured_send_and_recv_skips_standalone_ack() {
    let (mut exch, mut pending) = begin(0x20, 0x21, b"req");
    exch.plan(&mut pending);
    let ack = reply(100, 7, OPCODE_MRP_STANDALONE_ACK, 1, b"");
    assert!(matches!(exch.on_packet(&mut pending, &ack), Reception::Waiting));
    let plan = exch.plan(&mut pending);
    assert!(!plan.transmit, "an acknowledged message is not sent again");
    assert_eq!(plan.wait_ms, RESPONSE_TIMEOUT_MS);
    let got = delivered(exch.on_packet(&mut pending, &reply(101, 7, 0x21, 1, b"resp")));
    assert_eq!(got.opcode, 0x21, "standalone ack must be skipped");
    assert_eq!(got.payload, b"resp");
}

#[test]
fn unsecured_send_and_recv_skips_secured_frames() {
    let (mut exch, mut pending) = begin(0x30, 0x31, b"sigma1");
    exch.plan(&mut pending);
    let stray = secured_frame(1, 99, &[0xAA; 24]);
    assert!(matches!(exch.on_packet(&mut pending, &stray), Reception::Waiting));
    let got = delivered(exch.on_packet(&mut pending, &reply(100, 7, 0x31, 1, b"sigma2")));
    assert_eq!(got.opcode, 0x31, "secured straggler must be skipped");
    assert_eq!(got.payload, b"sigma2");
}

#[test]
fn unsecured_send_and_recv_skips_stale_prior_step_response() {
    let (mut exch, mut pending) = begin(0x22, 0x23, b"pake1");
    exch.plan(&mut pending);
    let stale = reply(100, 7, 0x21, 1, b"stale-pbkdf-response");
    assert!(matches!(exch.on_packet(&mut pending, &stale), Reception::Waiting));
    let got = delivered(exch.on_packet(&mut pending, &reply(101, 7, 0x23, 1, b"pake2")));
    assert_eq!(got.opcode, 0x23, "stale prior-step response must be skipped");
    assert_eq!(got.payload, b"pake2");
}

#[test]
fn unsecured_send_and_recv_unexpected_frame_times_out() {
    let (mut exch, mut pending) = begin(0x22, 0x23, b"pake1");
    exch.plan(&mut pending);
    let ack = reply(100, 7, OPCODE_MRP_STANDALONE_ACK, 1, b"");
    assert!(matches!(exch.on_packet(&mut pending, &ack), Reception::Waiting));
    let stale = reply(101, 7, 0x21, 1, b"stale");
    assert!(matches!(exch.on_packet(&mut pending, &stale), Reception::Waiting));
    assert!(matches!(
        exch.on_timeout(&mut pending),
        Some(DriverError::Timeout { exchange_id: 7 })
    ));
}

#[test]
fn unsecured_send_and_recv_retransmits_dropped_send() {
    let (mut exch, mut pending) = begin(0x20, 0x21, b"req");
    assert!(exch.plan(&mut pending).transmit);
    let first = pending.wire().to_vec();
    assert!(exch.on_timeout(&mut pending).is_none());
    assert!(exch.plan(&mut pending).transmit, "an unanswered message is sent again");
    assert_eq!(pending.wire(), first);
    assert_eq!(delivered(exch.on_packet(&mut pending, &reply(100, 7, 0x21, 1, b"resp"))).opcode, 0x21);
}

#[test]
fn an_unanswered_exchange_ends() {
    let (exch, mut pending) = begin(0x20, 0x21, b"req");
    let mut waits: u8 = 0;
    loop {
        exch.plan(&mut pending);
        waits += 1;
        if exch.on_timeout(&mut pending).is_some() {
            break;
        }
    }
    assert_eq!(waits, MAX_ATTEMPTS);
}

#[test]
fn repeated_answers_are_taken_once() {
    let (mut exch, mut pending) = begin(0x20, 0x21, b"req");
    exch.plan(&mut pending);
    let answer = reply(100, 7, 0x21, 1, b"resp");
    delivered(exch.on_packet(&mut pending, &answer));
    let mut pending = exch.begin(0x22, 0x21, b"again", Some(100));
    exch.plan(&mut pending);
    assert!(matches!(exch.on_packet(&mut pending, &answer), Reception::Waiting));
    let other_exchange = reply(101, 8, 0x21, 1, b"resp");
    assert!(matches!(exch.on_packet(&mut pending, &other_exchange), Reception::Waiting));
    assert!(matches!(
        exch.on_packet(&mut pending, &[0, 0, 0]),
        Reception::Failed(DriverError::Transport(TransportFault::Truncated))
    ));
}

// ---- handshakes -------------------------------------------------------------

fn handshake_message(counter: u32, opcode: u8) -> UnsecuredMessage {
    UnsecuredMessage { message_counter: counter, opcode, payload: vec![], ..status_message(0, 0) }
}

#[test]
fn pase_takes_three_legs() {
    let mut pase = Handshake::new(HandshakeKind::Pase);
    assert_eq!((pase.leg().opcode, pase.leg().expected_opcode), (0x20, 0x21));
    assert_eq!(pase.ack(), None);
    assert!(matches!(pase.on_answer(&handshake_message(11, 0x21)), HandshakeStep::Proceed));
    assert_eq!((pase.leg().opcode, pase.leg().expected_opcode), (0x22, 0x23));
    assert_eq!(pase.ack(), Some(11));
    assert!(matches!(pase.on_answer(&handshake_message(12, 0x23)), HandshakeStep::Proceed));
    assert_eq!((pase.leg().opcode, pase.leg().expected_opcode), (0x24, 0x40));
    assert_eq!(pase.ack(), Some(12));
    match pase.on_answer(&status_message(0, 0)) {
        HandshakeStep::Close { ack, outcome } => {
            assert_eq!(ack, 1);
            assert!(outcome.is_ok());
        }
        _ => panic!("expected the end"),
    }
}

#[test]
fn handshakes_surface_status_report_rejection() {
    for kind in [HandshakeKind::Pase, HandshakeKind::Case] {
        let mut handshake = Handshake::new(kind);
        match handshake.on_answer(&status_message(1, 0x0002)) {
            HandshakeStep::Reject { ack, error } => {
                assert_eq!(ack, 1);
                assert!(matches!(
                    error,
                    DriverError::SessionEstablishmentFailed { general_code: 1, protocol_code: 2 }
                ));
                assert_eq!(
                    error.message(),
                    "session establishment rejected: general code 1, protocol code 0x0002"
                );
            }
            _ => panic!("expected a rejection"),
        }
    }
}

#[test]
fn case_ends_with_the_status_report() {
    let mut case = Handshake::new(HandshakeKind::Case);
    assert_eq!((case.leg().opcode, case.leg().expected_opcode), (0x30, 0x31));
    assert!(matches!(case.on_answer(&handshake_message(5, 0x31)), HandshakeStep::Proceed));
    assert_eq!((case.leg().opcode, case.leg().expected_opcode), (0x32, 0x40));
    match case.on_answer(&status_message(1, 3)) {
        HandshakeStep::Close { outcome, .. } => assert!(matches!(
            outcome,
            Err(DriverError::SessionEstablishmentFailed { general_code: 1, protocol_code: 3 })
        )),
        _ => panic!("expected the end"),
    }
    let mut case = Handshake::new(HandshakeKind::Case);
    case.on_answer(&handshake_message(5, 0x31));
    assert!(matches!(case.on_answer(&handshake_message(6, 0x33)), HandshakeStep::Fail(_)));
}

#[test]
fn a_wrong_opcode_is_a_protocol_error() {
    assert!(require_handshake_opcode(&handshake_message(1, 0x21), 0x21).is_ok());
    assert!(matches!(
        require_handshake_opcode(&handshake_message(1, 0x23), 0x21),
        Err(DriverError::Handshake(_))
    ));
}

#[test]
fn pase_registers_the_session_of_the_responder() {
    let mrp = conclude_pase(Some(7), TransportReliability::Mrp).unwrap();
    assert_eq!((mrp.peer_session_id, mrp.transport_reliable), (7, false));
    let ble = conclude_pase(Some(7), TransportReliability::TransportProvides).unwrap();
    assert!(ble.transport_reliable);
    assert!(matches!(
        conclude_pase(None, TransportReliability::Mrp),
        Err(DriverError::Handshake("PASE negotiation produced no responder session id"))
    ));
}

// ---- secured exchanges ------------------------------------------------------

#[test]
fn stragglers_without_a_session_are_told_by_their_header() {
    let stray = encode_unsecured(
        7,
        1,
        0x40,
        ProtocolId::secure_channel(),
        false,
        true,
        None,
        None,
        &[0u8; 8],
    );
    assert!(is_unsecured(&stray));
    assert!(!is_unsecured(&secured_frame(1, 1, &[0; 8])));
    assert!(!is_unsecured(&[0, 0]));
}

#[test]
fn a_round_trip_returns_the_response_payload() {
    let answer = Ok(Inbound::AppMessage { exchange_id: 4, payload: b"invoke-response-tlv".to_vec() });
    match round_trip_step(4, answer) {
        RoundTripStep::Done(response) => {
            assert_eq!(response.exchange_id, 4);
            assert_eq!(response.payload, b"invoke-response-tlv");
        }
        _ => panic!("expected the answer"),
    }
}

#[test]
fn a_round_trip_skips_what_is_not_its_answer() {
    let other = Ok(Inbound::AppMessage { exchange_id: 5, payload: vec![1] });
    assert!(matches!(round_trip_step(4, other), RoundTripStep::Wait));
    assert!(matches!(round_trip_step(4, Ok(Inbound::Other)), RoundTripStep::Wait));
    for fault in [TransportFault::UnknownSession, TransportFault::DecryptionFailed] {
        assert!(matches!(round_trip_step(4, Err(fault)), RoundTripStep::Wait));
    }
    assert!(matches!(
        round_trip_step(4, Err(TransportFault::Truncated)),
        RoundTripStep::Fail(DriverError::Transport(TransportFault::Truncated))
    ));
    let duplicate = Ok(Inbound::DuplicateReliableAckResent { ack_packet: vec![9] });
    assert!(matches!(round_trip_step(4, duplicate), RoundTripStep::Send(p) if p == vec![9]));
}

#[test]
fn timers_send_until_an_exchange_expires() {
    let plan = on_timer(vec![
        MrpEvent::Retransmit { packet: vec![1] },
        MrpEvent::Other,
        MrpEvent::SendStandaloneAck { packet: vec![2] },
    ]);
    assert_eq!(plan.packets, vec![vec![1], vec![2]]);
    assert!(plan.failure.is_none());
    let plan = on_timer(vec![
        MrpEvent::Retransmit { packet: vec![1] },
        MrpEvent::Expired { exchange_id: 4 },
        MrpEvent::Retransmit { packet: vec![2] },
    ]);
    assert_eq!(plan.packets, vec![vec![1]]);
    assert!(matches!(plan.failure, Some(DriverError::Timeout { exchange_id: 4 })));
    assert_eq!(sleep_for(None, 5), IDLE_SLEEP_MS);
    assert_eq!(sleep_for(Some(9), 5), 4);
    assert_eq!(sleep_for(Some(3), 5), 0);
}

fn chunk(payload: Vec<u8>) -> Result<Inbound, TransportFault> {
    Ok(Inbound::AppMessage { exchange_id: 4, payload })
}

#[test]
fn a_read_reassembles_two_chunks() {
    let mut read = ReadTransaction::new(4);
    assert!(matches!(read.on_inbound(chunk(vec![1]), Ok(true)), ReadStep::Solicit));
    assert!(matches!(read.on_inbound(Ok(Inbound::Other), Ok(false)), ReadStep::Wait));
    assert!(matches!(read.on_inbound(chunk(vec![2]), Ok(false)), ReadStep::Done));
    assert_eq!(read.into_chunks(), vec![vec![1], vec![2]]);
}

#[test]
fn a_read_has_limits() {
    let mut read = ReadTransaction::new(4);
    for _ in 0..MAX_READ_CHUNKS {
        assert!(matches!(read.on_inbound(chunk(vec![1]), Ok(true)), ReadStep::Solicit));
    }
    assert!(matches!(
        read.on_inbound(chunk(vec![1]), Ok(false)),
        ReadStep::Fail(DriverError::ReadTooLarge { limit: "MAX_READ_CHUNKS" })
    ));
    let mut read = ReadTransaction::new(4);
    assert!(matches!(read.on_inbound(chunk(vec![0; MAX_READ_BYTES]), Ok(true)), ReadStep::Solicit));
    assert!(matches!(
        read.on_inbound(chunk(vec![1]), Ok(false)),
        ReadStep::Fail(DriverError::ReadTooLarge { limit: "MAX_READ_BYTES" })
    ));
    let mut read = ReadTransaction::new(4);
    assert!(matches!(
        read.on_inbound(chunk(vec![1]), Err(ImError::NotAStruct)),
        ReadStep::Fail(DriverError::Im(ImError::NotAStruct))
    ));
}

// ---- commissioning ----------------------------------------------------------

fn report(attributes: Vec<(u32, u32, Value)>) -> ReportData {
    ReportData {
        attributes: attributes
            .into_iter()
            .map(|(cluster, attribute, value)| {
                (AttributePath { endpoint: 0, cluster, attribute }, value)
            })
            .collect(),
        more_chunked_messages: false,
    }
}

#[test]
fn extract_read_payload_network_commissioning_info_bare_uint() {
    let feat_val: u64 = 0x01;
    let report = report(vec![(NETWORK_COMMISSIONING, FEATURE_MAP, Value::Uint(feat_val))]);
    let payload = extract_read_payload(Expectation::NetworkCommissioningInfo, &report).unwrap();
    let mut w = TlvWriter::new();
    w.put_uint(Tag::Anonymous, feat_val);
    let expected = w.finish();
    assert_eq!(
        payload, expected,
        "NetworkCommissioningInfo payload mismatch: got {payload:02x?}, expected {expected:02x?}",
    );
    let features = decode_feature_map(&payload)
        .expect("decode_feature_map should accept the re-encoded payload");
    assert!(
        features.contains(NetworkCommissioningFeature::wifi()),
        "WIFI bit must be set after round-trip",
    );
}

#[test]
fn extract_read_payload_picks_basic_commissioning_info_at_0x0001() {
    let gc = GENERAL_COMMISSIONING;
    let report = report(vec![
        (gc, 0x0004, Value::Bool(true)),
        (gc, 0x0002, Value::Uint(0)),
        (
            gc,
            0x0001,
            Value::Structure(vec![
                (Tag::Context(0), Value::Uint(60)),
                (Tag::Context(1), Value::Uint(900)),
            ]),
        ),
        (gc, 0x0000, Value::Uint(0)),
    ]);
    let payload = extract_read_payload(Expectation::CommissioningInfo, &report).unwrap();
    assert_eq!(
        payload.first(),
        Some(&0x15u8),
        "extractor must return the BasicCommissioningInfo struct, \
         not another attribute's value"
    );
    assert_eq!(payload.last(), Some(&0x18u8));
}

#[test]
fn extract_read_payload_commissioning_info_struct() {
    let struct_value = Value::Structure(vec![
        (Tag::Context(0), Value::Uint(120)),
        (Tag::Context(1), Value::Uint(900)),
    ]);
    let report = report(vec![(GENERAL_COMMISSIONING, BASIC_COMMISSIONING_INFO, struct_value)]);
    let payload = extract_read_payload(Expectation::CommissioningInfo, &report).unwrap();
    assert_eq!(payload.first(), Some(&0x15u8), "should start with anon-struct byte");
    assert_eq!(payload.last(), Some(&0x18u8), "should end with end-container");
    let info = decode_basic_commissioning_info(&payload)
        .expect("decode_basic_commissioning_info should accept the re-encoded payload");
    assert_eq!(info.failsafe_expiry_length_seconds, 120);
    assert_eq!(info.max_cumulative_failsafe_seconds, 900);
}

#[test]
fn extract_read_payload_missing_feature_map_returns_error() {
    let err = extract_read_payload(Expectation::NetworkCommissioningInfo, &report(vec![]))
        .expect_err("missing attribute should fail");
    assert!(matches!(err, DriverError::Im(_)), "expected DriverError::Im, got {err:?}");
}

#[test]
fn extract_read_payload_non_read_expectation_returns_error() {
    let err = extract_read_payload(Expectation::ArmFailsafeResponse, &report(vec![]))
        .expect_err("non-read expectation should fail");
    assert!(matches!(err, DriverError::Im(_)), "expected DriverError::Im, got {err:?}");
}

#[test]
fn a_feature_map_must_be_a_number() {
    let report = report(vec![(NETWORK_COMMISSIONING, FEATURE_MAP, Value::Bool(true))]);
    assert!(matches!(
        extract_read_payload(Expectation::NetworkCommissioningInfo, &report),
        Err(DriverError::Im(ImError::UnexpectedValue(_)))
    ));
}

#[test]
fn a_read_feed_carries_the_connect_time() {
    let nc = NETWORK_COMMISSIONING;
    let both = report(vec![
        (nc, FEATURE_MAP, Value::Uint(1)),
        (nc, CONNECT_MAX_TIME_SECONDS, Value::Uint(40)),
    ]);
    assert_eq!(extract_connect_max_time_seconds(&both), Some(40));
    let feed = match read_feed(Expectation::NetworkCommissioningInfo, &both) {
        Ok(feed) => feed,
        Err(_) => panic!("expected a feed"),
    };
    assert_eq!(feed.payload, vec![0x04, 0x01]);
    assert_eq!(feed.connect_max_time_seconds, Some(40));
    let wide = report(vec![(nc, CONNECT_MAX_TIME_SECONDS, Value::Uint(70_000))]);
    assert_eq!(extract_connect_max_time_seconds(&wide), None);
    assert!(matches!(
        read_feed(Expectation::NetworkCommissioningInfo, &wide),
        Err(LoopExit::Failed(DriverError::Im(ImError::MissingField(_))))
    ));
}

#[test]
fn disarm_on_exit_decision() {
    assert!(
        disarm_on_exit(&LoopExit::Failed(DriverError::Handshake("mid-flight failure"))),
        "a propagated failure must disarm the failsafe best-effort"
    );
    assert!(
        disarm_on_exit(&LoopExit::Aborted { disarm: true, reason: "device rejected".to_string() }),
        "an abort that requests disarm must disarm"
    );
    assert!(
        !disarm_on_exit(&LoopExit::Aborted {
            disarm: false,
            reason: "failsafe never armed".to_string(),
        }),
        "an abort that says not to disarm must be honored"
    );
}

#[test]
fn loop_exit_maps_to_driver_error() {
    let aborted = LoopExit::Aborted { disarm: true, reason: "boom".to_string() };
    match aborted.into_driver_error() {
        DriverError::Aborted(r) => assert_eq!(r, "boom"),
        other => panic!("expected Aborted, got {other:?}"),
    }
    match LoopExit::Failed(DriverError::Handshake("h")).into_driver_error() {
        DriverError::Handshake("h") => {}
        other => panic!("expected Handshake, got {other:?}"),
    }
}

#[test]
fn a_failed_run_is_concluded() {
    let exit = LoopExit::Aborted { disarm: false, reason: "boom".to_string() };
    let plan = conclude_run(exit, TransportReliability::TransportProvides);
    assert!(!plan.disarm);
    assert_eq!(plan.deadline_ms, Some(30_000));
    assert_eq!(plan.error.message(), "commissioning aborted: boom");
    let exit = LoopExit::Failed(DriverError::Timeout { exchange_id: 3 });
    let plan = conclude_run(exit, TransportReliability::Mrp);
    assert!(plan.disarm);
    assert_eq!(plan.deadline_ms, None);
    assert_eq!(plan.error.message(), "retransmit budget exhausted on exchange 3");
}

#[test]
fn response_deadlines() {
    assert_eq!(response_deadline(TransportReliability::Mrp, false), None);
    assert_eq!(response_deadline(TransportReliability::Mrp, true), None);
    assert_eq!(response_deadline(TransportReliability::TransportProvides, false), Some(30_000));
    assert_eq!(response_deadline(TransportReliability::TransportProvides, true), Some(60_000));
    assert!(matches!(deadline_missed(), DriverError::Timeout { exchange_id: 0 }));
}

#[test]
fn rollback_arms_the_failsafe_for_no_time() {
    let (path, fields) = rollback_command();
    assert_eq!(
        path,
        CommandPath { endpoint: 0, cluster: GENERAL_COMMISSIONING, command: ARM_FAIL_SAFE }
    );
    let arm = decode_arm_fail_safe_fields(&fields);
    assert_eq!(arm.expiry_length_seconds, 0, "expiry must be 0 for disarm");
    assert_eq!(arm.breadcrumb, 0);
}

#[test]
fn flushing_waits_a_short_while() {
    assert_eq!(flush_wait(None, 100), None);
    assert_eq!(flush_wait(Some(90), 100), Some(0));
    assert_eq!(flush_wait(Some(600), 100), Some(500));
    assert_eq!(flush_wait(Some(601), 100), None);
    assert_eq!(
        flush_packets(vec![
            MrpEvent::Retransmit { packet: vec![1] },
            MrpEvent::Expired { exchange_id: 4 },
            MrpEvent::SendStandaloneAck { packet: vec![2] },
        ]),
        vec![vec![1], vec![2]]
    );
}

#[test]
fn profiles_and_the_stream_peer() {
    assert_eq!(ip_profile().reliability, TransportReliability::Mrp);
    assert_eq!(ip_profile().resolve_attempts, 300);
    assert_eq!(ble_profile().reliability, TransportReliability::TransportProvides);
    assert_eq!(ble_profile().resolve_attempts, 600);
    assert_eq!(stream_peer(), Endpoint { address: IpAddress::V6(1), port: 5540 });
}

#[test]
fn invoke_answers_reach_the_state_machine() {
    let path = CommandPath { endpoint: 0, cluster: 0x30, command: 1 };
    let outcome = invoke_outcome(InvokeResponse::Command { path, fields_tlv: vec![0x15, 0x18] });
    assert_eq!(response_payload(outcome), vec![0x15, 0x18]);
    let outcome = invoke_outcome(InvokeResponse::Status(ImStatus::Failure(0x85)));
    assert!(matches!(outcome, InvokeOutcome::Status(ImStatus::Failure(0x85))));
    assert_eq!(response_payload(outcome), vec![0x85]);
    assert_eq!(response_payload(InvokeOutcome::Status(ImStatus::Success)), vec![0]);
}

fn invoke(session: SessionContext, cluster: u32, command: u32) -> Action<u8> {
    Action::Invoke {
        session,
        endpoint: 0,
        cluster,
        command,
        payload: vec![0x15, 0x18],
        expect: Expectation::CommandResponse,
    }
}

#[test]
fn the_poll_loop_routes_by_session() {
    let mut state = PollLoop::new(TransportReliability::TransportProvides);
    match state.dispatch(invoke(SessionContext::Pase, GENERAL_COMMISSIONING, 0)) {
        Dispatch::Invoke { route, deadline_ms, path, fields, .. } => {
            assert_eq!(route, Route::Pase);
            assert_eq!(deadline_ms, Some(30_000));
            assert_eq!(path.cluster, GENERAL_COMMISSIONING);
            assert_eq!(fields, vec![0x15, 0x18]);
        }
        _ => panic!("expected an invoke"),
    }
    match state.dispatch(invoke(SessionContext::Pase, NETWORK_COMMISSIONING, CONNECT_NETWORK)) {
        Dispatch::Invoke { deadline_ms, .. } => assert_eq!(deadline_ms, Some(60_000)),
        _ => panic!("expected an invoke"),
    }
    assert!(matches!(
        state.dispatch(invoke(SessionContext::Case, GENERAL_COMMISSIONING, 4)),
        Dispatch::Exit(LoopExit::Failed(DriverError::Handshake(_)))
    ));
    let endpoint = Endpoint { address: V4, port: 5540 };
    assert_eq!(state.on_case(Some((9, endpoint))), None);
    match state.dispatch(invoke(SessionContext::Case, GENERAL_COMMISSIONING, 4)) {
        Dispatch::Invoke { route, deadline_ms, .. } => {
            assert_eq!(route, Route::Case { session_id: 9, endpoint });
            assert_eq!(deadline_ms, None);
        }
        _ => panic!("expected an invoke"),
    }
    assert_eq!(state.on_case(None), Some(Expectation::CaseFailed));
}

#[test]
fn the_poll_loop_reads_establishes_and_ends() {
    let mut state = PollLoop::new(TransportReliability::Mrp);
    let read: Action<u8> = Action::ReadAttribute {
        session: SessionContext::Pase,
        endpoint: 1,
        cluster: 0x31,
        attributes: vec![1, 0xFFFC],
        expect: Expectation::NetworkCommissioningInfo,
    };
    match state.dispatch(read) {
        Dispatch::Read { paths, deadline_ms, .. } => {
            assert_eq!(deadline_ms, None);
            assert_eq!(
                paths,
                vec![
                    AttributePath { endpoint: 1, cluster: 0x31, attribute: 1 },
                    AttributePath { endpoint: 1, cluster: 0x31, attribute: 0xFFFC },
                ]
            );
        }
        _ => panic!("expected a read"),
    }
    let establish: Action<u8> = Action::EstablishCase { fabric_id: 5, peer_node_id: 6 };
    assert!(matches!(
        state.dispatch(establish),
        Dispatch::EstablishCase { fabric_id: 5, peer_node_id: 6 }
    ));
    assert!(state.take_credentials().is_ok());
    assert!(matches!(
        state.take_credentials(),
        Err(LoopExit::Failed(DriverError::Handshake(_)))
    ));
    assert!(matches!(state.dispatch(Action::Done(7u8)), Dispatch::Finish(7)));
    let abort: Action<u8> = Action::Abort { send_disarm_failsafe: true, reason: "no".to_string() };
    assert!(matches!(
        state.dispatch(abort),
        Dispatch::Exit(LoopExit::Aborted { disarm: true, .. })
    ));
    let evict: Action<u8> = Action::EvictCase;
    assert!(matches!(
        state.dispatch(evict),
        Dispatch::Exit(LoopExit::Failed(DriverError::Handshake(_)))
    ));
}

#[test]
fn driver_error_texts() {
    assert_eq!(
        DriverError::Transport(TransportFault::UnknownSession).message(),
        "transport/session error: unknown session"
    );
    assert_eq!(
        DriverError::Im(ImError::NotAStruct).message(),
        "interaction-model framing error: expected anonymous structure at message root"
    );
    assert_eq!(
        DriverError::ReadTooLarge { limit: "MAX_READ_BYTES" }.message(),
        "read exceeds MAX_READ_BYTES"
    );
    assert_eq!(
        DriverError::Handshake("no answer").message(),
        "handshake protocol error: no answer"
    );
}

#[test]
fn names_tell_nodes_apart() {
    let name = operational_instance_name(CFID, 1);
    assert_eq!(name.len(), 33);
    assert_ne!(name, operational_instance_name(CFID, 2));
    assert_ne!(name, operational_instance_name(CFID, 1 << 63));
    assert_ne!(name, operational_instance_name([0; 8], 1));
    // The case of a letter does not matter to a search, the digits do.
    let mut search = OperationalSearch::new(CFID, 1, 1);
    assert!(search.start_round());
    let lower = vec![record(&name.to_lowercase(), vec![V4])];
    assert!(search.on_records(&lower).is_some());
    let other = vec![record(&operational_instance_name(CFID, 2), vec![V4])];
    assert!(search.on_records(&other).is_none());
}

#[test]
fn destination_of_a_frame_is_passed_over() {
    let secure = ProtocolId::secure_channel();
    let wire = encode_unsecured(7, 0x1234, 0x22, secure, true, true, None, Some(9), &[0xAA]);
    // The same frame with a destination node or a group behind the source.
    for (flag, extra) in [(0x05u8, 8usize), (0x06, 2)] {
        let mut addressed = vec![flag];
        addressed.extend_from_slice(&wire[1..16]);
        addressed.extend_from_slice(&vec![0x77; extra]);
        addressed.extend_from_slice(&wire[16..]);
        assert_eq!(decode_unsecured(&addressed).unwrap(), decode_unsecured(&wire).unwrap());
    }
}

#[test]
fn frames_of_other_protocols_are_skipped() {
    let mut exch = UnsecuredExchange::new(1, 9, 0xABCD);
    let mut pending = exch.begin(0x20, 0x21, b"req", None);
    let frame = |counter: u32, opcode: u8, protocol: ProtocolId| {
        encode_unsecured(counter, 9, opcode, protocol, false, true, None, None, b"answer")
    };
    let vendor = ProtocolId { vendor: 0xFFF1, protocol: 0 };
    for (opcode, protocol) in [
        (0x05, ProtocolId::interaction_model()),
        (0x21, ProtocolId::interaction_model()),
        (0x40, ProtocolId::interaction_model()),
        (0x10, ProtocolId::interaction_model()),
        (0x21, vendor),
    ] {
        let packet = frame(50, opcode, protocol);
        assert!(matches!(exch.on_packet(&mut pending, &packet), Reception::Waiting));
    }
    // Nothing of that counts as taken: the answer may have a lower counter.
    let packet = frame(7, 0x21, ProtocolId::secure_channel());
    match exch.on_packet(&mut pending, &packet) {
        Reception::Delivered(m) => assert_eq!(m.protocol_id, ProtocolId::secure_channel()),
        other => panic!("expected the answer, got {other:?}"),
    }
    // It is not taken twice.
    let mut next = exch.begin(0x22, 0x21, b"req", Some(7));
    assert!(matches!(exch.on_packet(&mut next, &packet), Reception::Waiting));
    let packet = frame(8, 0x21, ProtocolId::secure_channel());
    assert!(matches!(exch.on_packet(&mut next, &packet), Reception::Delivered(_)));
}

#[test]
fn commissionable_search_has_its_rounds() {
    let mut search = CommissionableSearch::new(1024);
    let mut rounds = 0;
    while search.start_round() {
        assert_eq!(search.on_records(&vec![]), None);
        rounds += 1;
    }
    assert_eq!(rounds, 50);
    assert!(!search.start_round());
    assert_eq!(search.failure().message(), commissionable_failure(1024).message());
}
