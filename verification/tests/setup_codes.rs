use matter_commissioning::setup::base38::{decode, encode};
use matter_commissioning::setup::manual_packer::{pack as pack_manual, unpack as unpack_manual};
use matter_commissioning::setup::qr_packer::{pack as pack_qr, unpack as unpack_qr, FIXED_BYTE_LEN};
use matter_commissioning::setup::verhoeff::{check_digit, verify};
use matter_commissioning::setup::{
    encode_manual_code, encode_qr, parse_manual_code, parse_qr, CommissioningFlow, Discriminator,
    DiscoveryCapabilities, Error, Passcode, SetupPayload, DISALLOWED_PASSCODES,
};

#[test]
fn display_missing_mt_prefix() {
    assert_eq!(Error::MissingMtPrefix.message(), "QR string is missing the `MT:` prefix");
}

#[test]
fn display_invalid_base38_char() {
    assert_eq!(
        Error::InvalidBase38Char('?', 7).message(),
        "invalid Base38 character `?` at position 7"
    );
}

#[test]
fn display_qr_trailing_bytes() {
    assert_eq!(
        Error::QrTrailingBytes { extra: 3 }.message(),
        "QR payload has 3 byte(s) after the fixed 11-byte block; vendor TLV blobs are not supported in this release"
    );
}

#[test]
fn display_manual_bad_checksum() {
    assert_eq!(
        Error::ManualCodeBadChecksum.message(),
        "manual code Verhoeff check digit failed"
    );
}

#[test]
fn display_other_setup_errors() {
    assert_eq!(
        Error::QrPayloadWrongLength { got: 9, need: 11 }.message(),
        "QR payload is the wrong length: 9 bytes, expected exactly 11"
    );
    assert_eq!(
        Error::ManualCodeWrongLength(12).message(),
        "manual code must be 11 or 21 digits; got 12"
    );
    assert_eq!(
        Error::ManualCodeNonDigit('x', 4).message(),
        "manual code contains non-digit `x` at position 4"
    );
    assert_eq!(
        Error::DiscriminatorOutOfRange(4096).message(),
        "discriminator 4096 exceeds the 12-bit field width"
    );
    assert_eq!(
        Error::PasscodeOutOfRange(134_217_728).message(),
        "passcode 134217728 exceeds the 27-bit field width"
    );
    assert_eq!(
        Error::PasscodeDisallowedTrivial(12_345_678).message(),
        "passcode 12345678 is in the disallowed-trivial list (spec §5.1.7.1)"
    );
    assert_eq!(
        Error::CommissioningFlowReserved(3).message(),
        "commissioning flow value 3 is reserved"
    );
    assert_eq!(
        Error::QrRequiresVidPid.message(),
        "QR-form payload requires both vendor_id and product_id to be present"
    );
    assert_eq!(
        Error::FieldOutOfRange { field: "vendor_id", value: 99_999 }.message(),
        "vendor_id 99999 is out of range"
    );
}

#[test]
fn new_accepts_zero() {
    let d = Discriminator::new(0).unwrap();
    assert_eq!(d.as_u16(), 0);
    assert_eq!(d.short(), 0);
}

#[test]
fn new_accepts_max_12_bit() {
    let d = Discriminator::new(0x0FFF).unwrap();
    assert_eq!(d.as_u16(), 0x0FFF);
    assert_eq!(d.short(), 0x0F);
}

#[test]
fn new_rejects_13_bit() {
    let err = Discriminator::new(0x1000).unwrap_err();
    assert!(matches!(err, Error::DiscriminatorOutOfRange(0x1000)));
}

#[test]
fn short_is_upper_4_bits() {
    let d = Discriminator::new(0x0ABC).unwrap();
    assert_eq!(d.short(), 0xA);
}

#[test]
fn passcode_limits() {
    assert_eq!(Passcode::new(20_202_021).unwrap().as_u32(), 20_202_021);
    assert_eq!(Passcode::new((1 << 27) - 1).unwrap().as_u32(), 134_217_727);
    assert!(matches!(
        Passcode::new(1 << 27).unwrap_err(),
        Error::PasscodeOutOfRange(134_217_728)
    ));
    for trivial in DISALLOWED_PASSCODES {
        assert_eq!(
            Passcode::new(trivial).unwrap_err(),
            Error::PasscodeDisallowedTrivial(trivial)
        );
    }
}

#[test]
fn commissioning_flow_numbers() {
    for n in 0..3u8 {
        assert_eq!(CommissioningFlow::from_u8(n).unwrap().as_u8(), n);
    }
    assert!(matches!(
        CommissioningFlow::from_u8(3).unwrap_err(),
        Error::CommissioningFlowReserved(3)
    ));
}

#[test]
fn encode_empty() {
    assert_eq!(encode(&[]), "");
}

#[test]
fn encode_one_byte_zero() {
    assert_eq!(encode(&[0]), "00");
}

#[test]
fn encode_one_byte_ff() {
    assert_eq!(encode(&[0xFF]), "R6");
}

#[test]
fn encode_two_bytes_zero() {
    assert_eq!(encode(&[0, 0]), "0000");
}

#[test]
fn encode_three_bytes_zero() {
    assert_eq!(encode(&[0, 0, 0]), "00000");
}

#[test]
fn roundtrip_empty() {
    let v = encode(&[]);
    assert_eq!(decode(&v).unwrap(), &[] as &[u8]);
}

#[test]
fn roundtrip_small() {
    for bytes in [
        &[0u8][..],
        &[0xFF][..],
        &[0, 0][..],
        &[0xFF, 0xFF][..],
        &[0, 0, 0][..],
        &[0xFF, 0xFF, 0xFF][..],
        &[0x12, 0x34, 0x56][..],
        &[1, 2, 3, 4, 5, 6][..],
        &[1, 2, 3, 4, 5, 6, 7][..],
        &[1, 2, 3, 4, 5, 6, 7, 8][..],
    ] {
        let s = encode(bytes);
        let back = decode(&s).unwrap();
        assert_eq!(back, bytes, "roundtrip failed for {bytes:?}");
    }
}

#[test]
fn decode_rejects_invalid_char() {
    let err = decode("MT@").unwrap_err();
    assert!(matches!(err, Error::InvalidBase38Char('@', 2)));
}

#[test]
fn decode_rejects_chunk_of_three() {
    let err = decode("ABC").unwrap_err();
    assert!(matches!(err, Error::InvalidBase38Char(_, _)));
}

#[test]
fn decode_names_the_last_stranger_of_a_group() {
    assert_eq!(decode("a0b00").unwrap_err(), Error::InvalidBase38Char('b', 2));
    assert_eq!(decode("00000a").unwrap_err(), Error::InvalidBase38Char('a', 5));
    assert_eq!(decode("00000A").unwrap_err(), Error::InvalidBase38Char('?', 5));
    assert_eq!(decode("ABC").unwrap_err(), Error::InvalidBase38Char('?', 2));
    assert_eq!(decode("-.").unwrap(), vec![0xA2]);
}

#[test]
fn wikipedia_example_236() {
    assert_eq!(check_digit("236"), 3);
    assert!(verify("2363"));
}

#[test]
fn detects_single_digit_swap() {
    assert!(verify("2363"));
    assert!(!verify("2463"));
    assert!(!verify("2373"));
    assert!(!verify("2364"));
}

#[test]
fn detects_adjacent_transposition() {
    assert!(verify("2363"));
    assert!(!verify("3263"));
    assert!(!verify("2633"));
}

#[test]
fn self_consistency_short() {
    for n in 0..1000u32 {
        let s = format!("{n:03}");
        let with_check = format!("{s}{}", check_digit(&s));
        assert!(verify(&with_check), "failed self-check for {s}");
    }
}

#[test]
fn self_consistency_manual_code_length() {
    let cases = ["1234567890", "0000000001", "9999999998", "3497011233"];
    for s in cases {
        let with_check = format!("{s}{}", check_digit(s));
        assert!(verify(&with_check), "failed for {s}");
    }
}

fn spec_example() -> SetupPayload {
    SetupPayload {
        version: 0,
        vendor_id: Some(0xFFF1),
        product_id: Some(0x8000),
        commissioning_flow: CommissioningFlow::Standard,
        discovery_capabilities: DiscoveryCapabilities::on_network(),
        discriminator: Discriminator::new(0xF00).unwrap(),
        passcode: Passcode::new(20_202_021).unwrap(),
    }
}

#[test]
fn pack_produces_11_bytes() {
    let bytes = pack_qr(&spec_example()).unwrap();
    assert_eq!(bytes.len(), FIXED_BYTE_LEN);
}

#[test]
fn pack_unpack_roundtrip_spec_example() {
    let p = spec_example();
    let bytes = pack_qr(&p).unwrap();
    let back = unpack_qr(&bytes).unwrap();
    assert_eq!(p, back);
}

#[test]
fn pack_rejects_missing_vid() {
    let mut p = spec_example();
    p.vendor_id = None;
    let err = pack_qr(&p).unwrap_err();
    assert!(matches!(err, Error::QrRequiresVidPid));
}

#[test]
fn pack_rejects_missing_pid() {
    let mut p = spec_example();
    p.product_id = None;
    let err = pack_qr(&p).unwrap_err();
    assert!(matches!(err, Error::QrRequiresVidPid));
}

#[test]
fn pack_rejects_custom_flow() {
    let mut p = spec_example();
    p.commissioning_flow = CommissioningFlow::Custom;
    let err = pack_qr(&p).unwrap_err();
    assert!(matches!(err, Error::CustomFlowUnsupported));
}

#[test]
fn unpack_reserved_flow_errors() {
    let p = spec_example();
    let mut bytes = pack_qr(&p).unwrap();
    bytes[4] |= 0b0001_1000;
    let err = unpack_qr(&bytes).unwrap_err();
    assert!(matches!(err, Error::CommissioningFlowReserved(3)));
}

#[test]
fn pack_unpack_extremes() {
    let p = SetupPayload {
        version: 0,
        vendor_id: Some(0xFFFF),
        product_id: Some(0xFFFF),
        commissioning_flow: CommissioningFlow::UserIntent,
        discovery_capabilities: DiscoveryCapabilities::ble()
            .union(DiscoveryCapabilities::on_network())
            .union(DiscoveryCapabilities::soft_ap()),
        discriminator: Discriminator::new(0x0FFF).unwrap(),
        passcode: Passcode::new(99_000_001).unwrap(),
    };
    let bytes = pack_qr(&p).unwrap();
    assert_eq!(unpack_qr(&bytes).unwrap(), p);
}

#[test]
fn qr_fields_stand_at_their_bits() {
    let p = SetupPayload {
        version: 5,
        vendor_id: Some(0x1234),
        product_id: Some(0x5678),
        commissioning_flow: CommissioningFlow::UserIntent,
        discovery_capabilities: DiscoveryCapabilities::from_bits_retain(0xA5),
        discriminator: Discriminator::new(0xABC).unwrap(),
        passcode: Passcode::new(20_202_021).unwrap(),
    };
    let mut expected: u128 = 5;
    expected |= 0x1234 << 3;
    expected |= 0x5678 << 19;
    expected |= 1 << 35;
    expected |= 0xA5 << 37;
    expected |= 0xABC << 45;
    expected |= 20_202_021 << 57;
    assert_eq!(pack_qr(&p).unwrap()[..], expected.to_le_bytes()[..11]);
}

#[test]
fn quick_start_codes_parse() {
    let from_qr = parse_qr("MT:Y.K90AFN00KA0648G00").unwrap();
    let from_manual = parse_manual_code("11693312331").unwrap();
    assert_eq!(from_qr.vendor_id, Some(0xFFF1));
    assert_eq!(from_manual.passcode.as_u32(), 20_202_021);
    assert_eq!(from_manual.discriminator.short(), 5);
}

#[test]
fn qr_text_roundtrips() {
    let p = spec_example();
    let text = encode_qr(&p).unwrap();
    assert!(text.starts_with("MT:"));
    assert_eq!(text.len(), 22);
    assert_eq!(parse_qr(&text).unwrap(), p);
    assert_eq!(
        encode_qr(&parse_qr("MT:Y.K90AFN00KA0648G00").unwrap()).unwrap(),
        "MT:Y.K90AFN00KA0648G00"
    );
}

#[test]
fn qr_text_errors() {
    assert!(matches!(parse_qr("").unwrap_err(), Error::MissingMtPrefix));
    assert!(matches!(
        parse_qr("MX:Y.K90AFN00KA0648G00").unwrap_err(),
        Error::MissingMtPrefix
    ));
    assert!(matches!(
        parse_qr("MT:0000000000").unwrap_err(),
        Error::QrPayloadWrongLength { got: 6, need: 11 }
    ));
    assert!(matches!(
        parse_qr("MT:00000000000000000000").unwrap_err(),
        Error::QrTrailingBytes { extra: 1 }
    ));
    assert!(matches!(
        parse_qr("MT:Y.K90AFN00KA0648g00").unwrap_err(),
        Error::InvalidBase38Char('g', 16)
    ));
    assert!(matches!(
        parse_qr("MT:0000000000000000000").unwrap_err(),
        Error::PasscodeDisallowedTrivial(0)
    ));
}

fn payload_11(short_disc: u8, passcode: u32) -> SetupPayload {
    SetupPayload {
        version: 0,
        vendor_id: None,
        product_id: None,
        commissioning_flow: CommissioningFlow::Standard,
        discovery_capabilities: DiscoveryCapabilities::empty(),
        discriminator: Discriminator::new(u16::from(short_disc) << 8).unwrap(),
        passcode: Passcode::new(passcode).unwrap(),
    }
}

fn payload_21(short_disc: u8, passcode: u32, vid: u16, pid: u16) -> SetupPayload {
    SetupPayload {
        vendor_id: Some(vid),
        product_id: Some(pid),
        ..payload_11(short_disc, passcode)
    }
}

#[test]
fn pack_11_digits_length_is_11() {
    let s = pack_manual(&payload_11(0xA, 20_202_021));
    assert_eq!(s.len(), 11);
    assert!(s.chars().all(|c| c.is_ascii_digit()));
}

#[test]
fn pack_21_digits_length_is_21() {
    let s = pack_manual(&payload_21(0xA, 20_202_021, 0xFFF1, 0x8000));
    assert_eq!(s.len(), 21);
    assert!(s.chars().all(|c| c.is_ascii_digit()));
}

#[test]
fn pack_unpack_roundtrip_11() {
    let p = payload_11(0xA, 20_202_021);
    let s = pack_manual(&p);
    let back = unpack_manual(&s).unwrap();
    assert_eq!(back, p);
}

#[test]
fn pack_unpack_roundtrip_21() {
    let p = payload_21(0xA, 20_202_021, 0xFFF1, 0x8000);
    let s = pack_manual(&p);
    let back = unpack_manual(&s).unwrap();
    assert_eq!(back, p);
}

#[test]
fn unpack_rejects_wrong_length() {
    assert!(matches!(
        unpack_manual("123").unwrap_err(),
        Error::ManualCodeWrongLength(3)
    ));
    assert!(matches!(
        unpack_manual("123456789012345").unwrap_err(),
        Error::ManualCodeWrongLength(15)
    ));
}

#[test]
fn unpack_rejects_non_digit() {
    assert!(matches!(
        unpack_manual("3497011233A").unwrap_err(),
        Error::ManualCodeNonDigit('A', 10)
    ));
}

#[test]
fn unpack_rejects_a_character_of_several_bytes() {
    assert!(matches!(
        unpack_manual("349701123é").unwrap_err(),
        Error::ManualCodeNonDigit('é', 9)
    ));
}

#[test]
fn unpack_rejects_bad_checksum() {
    let mut s = pack_manual(&payload_11(0xA, 20_202_021));
    let last = s.pop().unwrap();
    let bad = if last == '0' { '1' } else { '0' };
    s.push(bad);
    assert!(matches!(
        unpack_manual(&s).unwrap_err(),
        Error::ManualCodeBadChecksum
    ));
}

#[test]
fn unpack_rejects_every_mistyped_and_exchanged_digit() {
    let code: Vec<char> = pack_manual(&payload_21(0x5, 20_202_021, 0x1234, 0x5678)).chars().collect();
    for i in 0..code.len() {
        for wrong in '0'..='9' {
            if wrong != code[i] {
                let mut typed = code.clone();
                typed[i] = wrong;
                let typed: String = typed.into_iter().collect();
                assert!(matches!(unpack_manual(&typed), Err(Error::ManualCodeBadChecksum)));
            }
        }
        if i + 1 < code.len() && code[i] != code[i + 1] {
            let mut typed = code.clone();
            typed.swap(i, i + 1);
            let typed: String = typed.into_iter().collect();
            assert!(matches!(unpack_manual(&typed), Err(Error::ManualCodeBadChecksum)));
        }
    }
}

#[test]
fn unpack_rejects_out_of_range_vid() {
    let mut s = pack_manual(&payload_21(0xA, 20_202_021, 0x1234, 0x5678));
    s.truncate(20);
    s.replace_range(10..15, "99999");
    s.push((check_digit(&s) + b'0') as char);
    match unpack_manual(&s).unwrap_err() {
        Error::FieldOutOfRange { field, value } => {
            assert_eq!(field, "vendor_id");
            assert_eq!(value, 99999);
        }
        other => panic!("expected FieldOutOfRange, got {other:?}"),
    }
}

#[test]
fn unpack_rejects_out_of_range_pid() {
    let mut s = pack_manual(&payload_21(0xA, 20_202_021, 0x1234, 0x5678));
    s.truncate(20);
    s.replace_range(15..20, "70000");
    s.push((check_digit(&s) + b'0') as char);
    match unpack_manual(&s).unwrap_err() {
        Error::FieldOutOfRange { field, value } => {
            assert_eq!(field, "product_id");
            assert_eq!(value, 70000);
        }
        other => panic!("expected FieldOutOfRange, got {other:?}"),
    }
}

#[test]
fn unpack_accepts_in_range_vid_pid_boundary() {
    let p = payload_21(0xA, 20_202_021, 0xFFFF, 0xFFFF);
    let s = pack_manual(&p);
    let back = unpack_manual(&s).unwrap();
    assert_eq!(back, p);
}

#[test]
fn unpack_rejects_length_that_contradicts_the_first_digit() {
    let mut short = String::from("5000120202");
    short.push((check_digit(&short) + b'0') as char);
    assert!(matches!(
        unpack_manual(&short).unwrap_err(),
        Error::ManualCodeWrongLength(11)
    ));
    let mut long = String::from("10001202020000100002");
    long.push((check_digit(&long) + b'0') as char);
    assert!(matches!(
        unpack_manual(&long).unwrap_err(),
        Error::ManualCodeWrongLength(21)
    ));
}

#[test]
fn roundtrip_edge_short_discriminators() {
    for short in 0u8..=0xF {
        let p = payload_11(short, 20_202_021);
        let s = pack_manual(&p);
        let back = unpack_manual(&s).unwrap();
        assert_eq!(back, p, "failed at short=0x{short:x}");
    }
}

#[test]
fn roundtrip_edge_passcodes() {
    for passcode in [1u32, 99_999_998, (1 << 27) - 1] {
        if DISALLOWED_PASSCODES.contains(&passcode) {
            continue;
        }
        let p = payload_11(0x5, passcode);
        let s = pack_manual(&p);
        let back = unpack_manual(&s).unwrap();
        assert_eq!(back, p);
    }
}

#[test]
fn manual_code_drops_the_lower_discriminator_bits() {
    let mut p = spec_example();
    p.discriminator = Discriminator::new(0xABC).unwrap();
    p.product_id = None;
    let code = encode_manual_code(&p);
    assert_eq!(code.len(), 11);
    let back = parse_manual_code(&code).unwrap();
    assert_eq!(back, payload_11(0xA, 20_202_021));
}

/// A manual code with the given digits and the right check digit.
fn with_check(digits: &str) -> String {
    let mut s = digits.to_string();
    s.push((check_digit(&s) + b'0') as char);
    s
}

#[test]
fn groups_of_digits_have_to_fit_their_bits() {
    assert!(matches!(
        unpack_manual("06553700017"),
        Err(Error::FieldOutOfRange { field: "chunk1", value: 65_537 })
    ));
    for (digits, wanted, limit) in [
        ("8000010000", "chunk0", 8),
        ("9655358191", "chunk0", 9),
        ("0655360000", "chunk1", 65_536),
        ("0999990000", "chunk1", 99_999),
        ("0000018192", "chunk2", 8_192),
        ("0000019999", "chunk2", 9_999),
    ] {
        match unpack_manual(&with_check(digits)).unwrap_err() {
            Error::FieldOutOfRange { field, value } => assert_eq!((field, value), (wanted, limit)),
            other => panic!("expected FieldOutOfRange, got {other:?}"),
        }
    }
    // The greatest groups that fit.
    let payload = unpack_manual(&with_check("3655358191")).unwrap();
    assert_eq!(payload.discriminator.as_u16(), 0xF00);
    assert_eq!(payload.passcode.as_u32(), 0x7FF_FFFF);
}

#[test]
fn length_is_tested_before_ranges() {
    assert!(matches!(unpack_manual("46553700019"), Err(Error::ManualCodeWrongLength(11))));
    for (digits, length) in [
        ("4000019999", 11),
        ("7999999999", 11),
        ("80000120200000100002", 21),
        ("99999999999999999999", 21),
        ("06553700010000100002", 21),
        ("39999999999999999999", 21),
    ] {
        match unpack_manual(&with_check(digits)).unwrap_err() {
            Error::ManualCodeWrongLength(got) => assert_eq!(got, length),
            other => panic!("expected ManualCodeWrongLength, got {other:?}"),
        }
    }
    // With the right length the ranges decide, the groups before vendor and product.
    assert!(matches!(
        unpack_manual(&with_check("46553700019999999999")),
        Err(Error::FieldOutOfRange { field: "chunk1", value: 65_537 })
    ));
    assert!(matches!(
        unpack_manual(&with_check("40000100019999999999")),
        Err(Error::FieldOutOfRange { field: "vendor_id", value: 99_999 })
    ));
}

#[test]
fn base38_encodes_group_by_group() {
    for (bytes, chars) in [(0usize, 0usize), (1, 2), (2, 4), (3, 5), (4, 7), (5, 9), (6, 10), (11, 19)] {
        assert_eq!(encode(&vec![0xA5; bytes]).len(), chars);
    }
    let groups = [1u8, 2, 3, 0xFD, 0xFE, 0xFF];
    let rest = [7u8, 8];
    let all = [&groups[..], &rest[..]].concat();
    assert_eq!(encode(&all), encode(&groups) + &encode(&rest));
}
