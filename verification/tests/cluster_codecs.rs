use matter_commissioning::clusters::general_commissioning::{
    decode_arm_fail_safe_fields, decode_arm_fail_safe_response, decode_basic_commissioning_info,
    decode_commissioning_error_response, decode_set_regulatory_config_response,
    encode_arm_fail_safe, encode_arm_fail_safe_response, encode_commissioning_complete,
    encode_set_regulatory_config, ArmFailSafeFields, RegulatoryLocation,
};
use matter_commissioning::clusters::network_commissioning::{
    decode_connect_max_time_seconds, decode_connect_network_response, decode_feature_map,
    decode_network_config_response, encode_add_or_update_wifi_network, encode_connect_network,
    remediation_for, NetworkCommissioningFeature, CLUSTER_ID,
};
use matter_commissioning::{CommissioningError, RemediationHint, Stage};

#[test]
fn arm_fail_safe_60_0_matches_spec_bytes() {
    let bytes = encode_arm_fail_safe(60, 0);
    assert_eq!(
        bytes,
        vec![0x15, 0x24, 0x00, 0x3C, 0x24, 0x01, 0x00, 0x18],
        "encoded bytes: {bytes:02x?}"
    );
}

#[test]
fn commissioning_complete_is_empty_anonymous_struct() {
    let bytes = encode_commissioning_complete();
    assert_eq!(bytes, vec![0x15, 0x18]);
}

#[test]
fn arm_fail_safe_response_ok_round_trips() {
    let tlv = vec![0x15, 0x24, 0x00, 0x00, 0x18];
    let decoded = decode_arm_fail_safe_response(&tlv).expect("happy path decodes");
    assert_eq!(decoded.error_code, 0);
    assert_eq!(decoded.debug_text, None);
}

#[test]
fn arm_fail_safe_response_with_debug_text_round_trips() {
    let tlv = vec![
        0x15, 0x24, 0x00, 0x01, 0x2C, 0x01, 0x04, b'b', b'u', b's', b'y', 0x18,
    ];
    let decoded = decode_arm_fail_safe_response(&tlv).expect("happy path decodes");
    assert_eq!(decoded.error_code, 1);
    assert_eq!(decoded.debug_text.as_deref(), Some("busy"));
}

#[test]
fn malformed_response_returns_error() {
    let err = decode_arm_fail_safe_response(&[0xFF]).expect_err("should fail");
    assert!(
        matches!(err, CommissioningError::MalformedResponse(Stage::ArmFailsafe)),
        "got {err:?}"
    );
}

#[test]
fn malformed_responses_name_their_stage() {
    // Twice the same field, a status of two bytes, no end, no status.
    for tlv in [
        vec![0x15, 0x24, 0x00, 0x00, 0x24, 0x00, 0x00, 0x18],
        vec![0x15, 0x25, 0x00, 0x00, 0x01, 0x18],
        vec![0x15, 0x24, 0x00, 0x00],
        vec![0x15, 0x18],
        vec![0x16, 0x18],
        vec![],
    ] {
        assert_eq!(
            decode_set_regulatory_config_response(&tlv).unwrap_err(),
            CommissioningError::MalformedResponse(Stage::ConfigRegulatory)
        );
        assert_eq!(
            decode_commissioning_error_response(Stage::SendComplete, &tlv).unwrap_err(),
            CommissioningError::MalformedResponse(Stage::SendComplete)
        );
    }
    let ok = decode_set_regulatory_config_response(&[0x15, 0x24, 0x00, 0x02, 0x18]).unwrap();
    assert_eq!(ok.error_code, 2);
}

#[test]
fn basic_commissioning_info_120_decodes() {
    let tlv = vec![
        0x15, 0x25, 0x00, 0x78, 0x00, 0x25, 0x01, 0x84, 0x03, 0x18,
    ];
    let info = decode_basic_commissioning_info(&tlv).expect("decodes");
    assert_eq!(info.failsafe_expiry_length_seconds, 120);
    assert_eq!(info.max_cumulative_failsafe_seconds, 900);
}

#[test]
fn basic_commissioning_info_malformed_returns_none() {
    assert!(decode_basic_commissioning_info(&[0xFF]).is_none());
    assert!(decode_basic_commissioning_info(&[]).is_none());
}

#[test]
fn basic_commissioning_info_edges() {
    // The cap may be absent; a time that does not fit spoils the first field only.
    let info = decode_basic_commissioning_info(&[0x15, 0x24, 0x00, 0x3C, 0x18]).unwrap();
    assert_eq!(info.max_cumulative_failsafe_seconds, 0);
    let wide = [0x15, 0x26, 0x00, 0x00, 0x00, 0x01, 0x00, 0x18];
    assert!(decode_basic_commissioning_info(&wide).is_none());
    let wide_cap = [
        0x15, 0x24, 0x00, 0x3C, 0x24, 0x01, 0x07, 0x26, 0x01, 0x00, 0x00, 0x01, 0x00, 0x18,
    ];
    let info = decode_basic_commissioning_info(&wide_cap).unwrap();
    assert_eq!(info.max_cumulative_failsafe_seconds, 7);
    assert!(decode_basic_commissioning_info(&[0x15, 0x24, 0x00, 0x3C]).is_none());
}

#[test]
fn arm_fail_safe_fields_are_read_back() {
    for (seconds, breadcrumb) in [(0u16, 0u64), (60, 1), (u16::MAX, u64::MAX)] {
        assert_eq!(
            decode_arm_fail_safe_fields(&encode_arm_fail_safe(seconds, breadcrumb)),
            ArmFailSafeFields { expiry_length_seconds: seconds, breadcrumb }
        );
    }
    let nothing = ArmFailSafeFields { expiry_length_seconds: 0, breadcrumb: 0 };
    assert_eq!(decode_arm_fail_safe_fields(&[]), nothing);
    assert_eq!(decode_arm_fail_safe_fields(&[0x16, 0x18]), nothing);
    // Without its end, or with bytes that are no element, nothing of it counts.
    assert_eq!(decode_arm_fail_safe_fields(&[0x15, 0x24, 0x00, 0x3C, 0x24, 0x01, 0x09]), nothing);
    assert_eq!(decode_arm_fail_safe_fields(&[0x15, 0x24, 0x00, 0x3C, 0xFF, 0x18]), nothing);
    // A time that does not fit counts as 0.
    let tlv = [0x15, 0x26, 0x00, 0x00, 0x00, 0x01, 0x00, 0x24, 0x01, 0x09, 0x18];
    assert_eq!(
        decode_arm_fail_safe_fields(&tlv),
        ArmFailSafeFields { expiry_length_seconds: 0, breadcrumb: 9 }
    );
}

#[test]
fn arm_fail_safe_response_is_read_back() {
    for code in [0u8, 1, 255] {
        let decoded = decode_arm_fail_safe_response(&encode_arm_fail_safe_response(code)).unwrap();
        assert_eq!(decoded.error_code, code);
    }
}

#[test]
fn set_regulatory_config_bytes() {
    assert_eq!(
        encode_set_regulatory_config(RegulatoryLocation::IndoorOutdoor, "DE", 3),
        vec![0x15, 0x24, 0x00, 0x02, 0x2C, 0x01, 0x02, b'D', b'E', 0x24, 0x02, 0x03, 0x18]
    );
    assert_eq!(encode_set_regulatory_config(RegulatoryLocation::Indoor, "", 0)[3], 0);
    assert_eq!(encode_set_regulatory_config(RegulatoryLocation::Outdoor, "", 0)[3], 1);
}

#[test]
fn feature_bits_disjoint() {
    assert_eq!(NetworkCommissioningFeature::wifi().bits(), 0b001);
    assert_eq!(NetworkCommissioningFeature::thread().bits(), 0b010);
    assert_eq!(NetworkCommissioningFeature::ethernet().bits(), 0b100);
}

#[test]
fn cluster_id_is_0x0031() {
    assert_eq!(CLUSTER_ID, 0x0031);
}

#[test]
fn add_or_update_wifi_network_matter_no_creds_matches_spec_bytes() {
    let bytes = encode_add_or_update_wifi_network(b"matter", b"", 0);
    assert_eq!(
        bytes,
        vec![
            0x15, 0x30, 0x00, 0x06, b'm', b'a', b't', b't', b'e', b'r', 0x30, 0x01, 0x00, 0x24,
            0x02, 0x00, 0x18,
        ],
        "encoded bytes: {bytes:02x?}",
    );
}

#[test]
fn add_or_update_wifi_network_with_creds_includes_passphrase_bytes() {
    let bytes = encode_add_or_update_wifi_network(b"matter", b"hunter22", 1);
    assert_eq!(bytes.first(), Some(&0x15));
    assert_eq!(bytes.last(), Some(&0x18));
    let window = b"hunter22";
    assert!(
        bytes.windows(window.len()).any(|w| w == window),
        "credentials should appear in the payload literal",
    );
}

#[test]
fn connect_network_matter_matches_spec_bytes() {
    let bytes = encode_connect_network(b"matter", 0);
    assert_eq!(
        bytes,
        vec![
            0x15, 0x30, 0x00, 0x06, b'm', b'a', b't', b't', b'e', b'r', 0x24, 0x01, 0x00, 0x18,
        ],
        "encoded bytes: {bytes:02x?}",
    );
}

#[test]
fn decode_feature_map_round_trips_all_8_combinations() {
    for raw in 0u8..8 {
        let tlv = vec![0x04, raw];
        let decoded = decode_feature_map(&tlv).expect("happy path decodes");
        assert_eq!(decoded.bits(), u32::from(raw));
    }
}

#[test]
fn decode_feature_map_rejects_non_uint_tlv() {
    let tlv = vec![0x10, 0x00];
    let err = decode_feature_map(&tlv).expect_err("should fail");
    assert!(matches!(err, CommissioningError::MalformedResponse(_)), "got {err:?}");
}

#[test]
fn decode_feature_map_truncates_high_bits_safely() {
    let tlv = vec![0x04, 0x0F];
    let decoded = decode_feature_map(&tlv).expect("decodes");
    assert_eq!(
        decoded,
        NetworkCommissioningFeature::wifi()
            .union(NetworkCommissioningFeature::thread())
            .union(NetworkCommissioningFeature::ethernet()),
    );
    assert!(decoded.contains(NetworkCommissioningFeature::thread()));
    assert!(!NetworkCommissioningFeature::wifi().contains(decoded));
}

#[test]
fn attribute_values_have_limits() {
    let wide = [0x07, 0, 0, 0, 0, 1, 0, 0, 0];
    assert_eq!(
        decode_feature_map(&wide).unwrap_err(),
        CommissioningError::MalformedResponse(Stage::ReadNetworkCommissioningInfo)
    );
    assert_eq!(decode_connect_max_time_seconds(&[0x05, 0x2C, 0x01]).unwrap(), 300);
    assert!(decode_connect_max_time_seconds(&[0x06, 0, 0, 1, 0]).is_err());
    assert!(decode_connect_max_time_seconds(&[]).is_err());
}

#[test]
fn network_config_response_ok_round_trips() {
    let tlv = vec![0x15, 0x24, 0x00, 0x00, 0x18];
    let decoded =
        decode_network_config_response(Stage::WiFiNetworkSetup, &tlv).expect("happy path decodes");
    assert_eq!(decoded.networking_status, 0);
    assert_eq!(decoded.debug_text, None);
}

#[test]
fn network_config_response_auth_failure_with_debug_text() {
    let tlv = vec![
        0x15, 0x24, 0x00, 0x07, 0x2C, 0x01, 0x08, b'w', b'r', b'o', b'n', b'g', b'-', b'p', b'w',
        0x18,
    ];
    let decoded =
        decode_network_config_response(Stage::WiFiNetworkSetup, &tlv).expect("happy path decodes");
    assert_eq!(decoded.networking_status, 7);
    assert_eq!(decoded.debug_text.as_deref(), Some("wrong-pw"));
}

#[test]
fn network_config_response_malformed_returns_error() {
    let err =
        decode_network_config_response(Stage::WiFiNetworkSetup, &[0xFF]).expect_err("should fail");
    assert!(matches!(err, CommissioningError::MalformedResponse(_)), "got {err:?}");
}

#[test]
fn connect_network_response_ok_round_trips() {
    let tlv = vec![0x15, 0x24, 0x00, 0x00, 0x18];
    let decoded =
        decode_connect_network_response(Stage::WiFiNetworkEnable, &tlv).expect("happy path decodes");
    assert_eq!(decoded.networking_status, 0);
    assert_eq!(decoded.debug_text, None);
    assert_eq!(decoded.error_value, None);
}

#[test]
fn connect_network_response_carries_error_value() {
    let tlv = vec![0x15, 0x24, 0x00, 0x09, 0x20, 0x02, 0x0A, 0x18];
    let decoded = decode_connect_network_response(Stage::WiFiNetworkEnable, &tlv).expect("decodes");
    assert_eq!(decoded.networking_status, 9);
    assert_eq!(decoded.error_value, Some(10));
}

#[test]
fn connect_network_response_refuses_wide_and_repeated_values() {
    let negative = [0x15, 0x24, 0x00, 0x09, 0x20, 0x02, 0xF6, 0x18];
    let decoded = decode_connect_network_response(Stage::WiFiNetworkEnable, &negative).unwrap();
    assert_eq!(decoded.error_value, Some(-10));
    let wide = [0x15, 0x24, 0x00, 0x09, 0x23, 0x02, 0, 0, 0, 0, 1, 0, 0, 0, 0x18];
    assert!(decode_connect_network_response(Stage::WiFiNetworkEnable, &wide).is_err());
    let twice = [0x15, 0x24, 0x00, 0x09, 0x20, 0x02, 0x01, 0x20, 0x02, 0x01, 0x18];
    assert!(decode_connect_network_response(Stage::WiFiNetworkEnable, &twice).is_err());
    // The other response has no such field.
    assert!(decode_network_config_response(Stage::WiFiNetworkSetup, &twice).is_ok());
}

#[test]
fn connect_network_response_malformed_returns_error() {
    let err = decode_connect_network_response(Stage::WiFiNetworkEnable, &[0xFF])
        .expect_err("should fail");
    assert!(matches!(err, CommissioningError::MalformedResponse(_)), "got {err:?}");
}

#[test]
fn remediation_for_table_matches_spec() {
    let table: &[(u8, RemediationHint)] = &[
        (0, RemediationHint::NoHint),
        (1, RemediationHint::NoHint),
        (2, RemediationHint::DeviceNetworkSlotsFull),
        (3, RemediationHint::CheckSsid),
        (4, RemediationHint::NoHint),
        (5, RemediationHint::CheckSsid),
        (6, RemediationHint::CheckRegulatoryRegion),
        (7, RemediationHint::CheckPassphrase),
        (8, RemediationHint::UpgradeSecurityMode),
        (9, RemediationHint::NoHint),
        (10, RemediationHint::DeviceIpStackFailure),
        (11, RemediationHint::DeviceIpStackFailure),
        (12, RemediationHint::NoHint),
    ];
    for (code, expected) in table {
        assert_eq!(remediation_for(*code), *expected, "remediation_for({code}) mismatch");
    }
    assert_eq!(remediation_for(99), RemediationHint::NoHint);
    assert_eq!(remediation_for(u8::MAX), RemediationHint::NoHint);
}

#[test]
fn unknown_containers_in_responses_are_passed_over() {
    let tlv = [0x15, 0x35, 0x07, 0x24, 0x00, 0x09, 0x18, 0x24, 0x00, 0x01, 0x18];
    assert_eq!(decode_arm_fail_safe_response(&tlv).unwrap().error_code, 1);
    let tlv = [0x15, 0x36, 0x07, 0x04, 0x09, 0x18, 0x24, 0x00, 0x3C, 0x18];
    let info = decode_basic_commissioning_info(&tlv).unwrap();
    assert_eq!(info.failsafe_expiry_length_seconds, 60);
}
