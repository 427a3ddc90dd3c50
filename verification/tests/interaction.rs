use matter_commissioning::im::status::build_status_response;
use matter_commissioning::text::hex;
use matter_commissioning::tlv::reader::read_all;
use matter_commissioning::tlv::{
    ContainerKind, Element, Tag, TlvError, TlvReader, TlvWriter, Value,
};
use matter_commissioning::{
    build_invoke_request, build_read_request, AttributePath, CommandPath, ImError, ImStatus,
    IM_REVISION,
};

#[test]
fn maps_success_and_failure_codes() {
    assert_eq!(ImStatus::from_u8(0x00), ImStatus::Success);
    assert!(matches!(ImStatus::from_u8(0x01), ImStatus::Failure(0x01)));
    assert!(matches!(ImStatus::from_u8(0x88), ImStatus::Failure(0x88)));
}

#[test]
fn is_success_only_for_zero() {
    assert!(ImStatus::from_u8(0x00).is_success());
    assert!(!ImStatus::from_u8(0x01).is_success());
}

#[test]
fn status_response_bytes() {
    assert_eq!(
        build_status_response(0),
        vec![0x15, 0x24, 0x00, 0x00, 0x24, 0xFF, 0x0B, 0x18]
    );
    assert_eq!(build_status_response(0x88)[3], 0x88);
}

#[test]
fn invoke_request_has_expected_structure() {
    let fields = vec![0x15, 0x18];
    let bytes = build_invoke_request(
        CommandPath { endpoint: 0, cluster: 0x0030, command: 0x00 },
        &fields,
    );

    let mut r = TlvReader::new(&bytes);
    assert!(matches!(
        r.next().unwrap(),
        Some(Element::ContainerStart { tag: Tag::Anonymous, kind: ContainerKind::Structure })
    ));
    assert!(matches!(
        r.next().unwrap(),
        Some(Element::Scalar { tag: Tag::Context(0), value: Value::Bool(false) })
    ));
    assert!(matches!(
        r.next().unwrap(),
        Some(Element::Scalar { tag: Tag::Context(1), value: Value::Bool(false) })
    ));
    assert!(matches!(
        r.next().unwrap(),
        Some(Element::ContainerStart { tag: Tag::Context(2), kind: ContainerKind::Array })
    ));
    assert!(matches!(
        r.next().unwrap(),
        Some(Element::ContainerStart { tag: Tag::Anonymous, kind: ContainerKind::Structure })
    ));
    assert!(matches!(
        r.next().unwrap(),
        Some(Element::ContainerStart { tag: Tag::Context(0), kind: ContainerKind::List })
    ));
    assert!(matches!(
        r.next().unwrap(),
        Some(Element::Scalar { tag: Tag::Context(0), value: Value::Uint(0) })
    ));
    assert!(matches!(
        r.next().unwrap(),
        Some(Element::Scalar { tag: Tag::Context(1), value: Value::Uint(0x0030) })
    ));
    assert!(matches!(
        r.next().unwrap(),
        Some(Element::Scalar { tag: Tag::Context(2), value: Value::Uint(0) })
    ));
    assert!(matches!(r.next().unwrap(), Some(Element::ContainerEnd)));
    assert!(matches!(
        r.next().unwrap(),
        Some(Element::ContainerStart { tag: Tag::Context(1), kind: ContainerKind::Structure })
    ));
    assert!(matches!(r.next().unwrap(), Some(Element::ContainerEnd)));
    assert!(matches!(r.next().unwrap(), Some(Element::ContainerEnd)));
    assert!(matches!(r.next().unwrap(), Some(Element::ContainerEnd)));
    assert!(matches!(
        r.next().unwrap(),
        Some(Element::Scalar { tag: Tag::Context(0xFF), value: Value::Uint(v) })
            if v == u64::from(IM_REVISION)
    ));
    assert!(matches!(r.next().unwrap(), Some(Element::ContainerEnd)));
    assert!(r.next().unwrap().is_none());
}

#[test]
fn invoke_request_carries_command_path_and_fields() {
    let fields = vec![0x15u8, 0x18];
    let bytes = build_invoke_request(
        CommandPath { endpoint: 1, cluster: 0x0031, command: 0x06 },
        &fields,
    );
    let retagged = [0x35u8, 0x01, 0x18];
    assert!(
        bytes.windows(retagged.len()).any(|w| w == retagged),
        "command fields not embedded (expected retagged bytes {retagged:02X?} in {bytes:02X?})",
    );
}

#[test]
fn read_request_has_attribute_requests_array() {
    let bytes = build_read_request(&[AttributePath {
        endpoint: 0,
        cluster: 0x0031,
        attribute: 0xFFFC,
    }]);
    let mut r = TlvReader::new(&bytes);
    assert!(matches!(
        r.next().unwrap(),
        Some(Element::ContainerStart { tag: Tag::Anonymous, kind: ContainerKind::Structure })
    ));
    assert!(matches!(
        r.next().unwrap(),
        Some(Element::ContainerStart { tag: Tag::Context(0), kind: ContainerKind::Array })
    ));
    assert!(matches!(
        r.next().unwrap(),
        Some(Element::ContainerStart { tag: Tag::Anonymous, kind: ContainerKind::List })
    ));
    assert!(matches!(
        r.next().unwrap(),
        Some(Element::Scalar { tag: Tag::Context(2), value: Value::Uint(0) })
    ));
    assert!(matches!(
        r.next().unwrap(),
        Some(Element::Scalar { tag: Tag::Context(3), value: Value::Uint(0x0031) })
    ));
    assert!(matches!(
        r.next().unwrap(),
        Some(Element::Scalar { tag: Tag::Context(4), value: Value::Uint(0xFFFC) })
    ));
}

#[test]
fn read_request_bytes() {
    let paths = [
        AttributePath { endpoint: 0, cluster: 0x30, attribute: 1 },
        AttributePath { endpoint: 1, cluster: 0x0600, attribute: 0x0001_0000 },
    ];
    assert_eq!(
        build_read_request(&paths),
        vec![
            0x15, 0x36, 0x00, 0x17, 0x24, 0x02, 0x00, 0x24, 0x03, 0x30, 0x24, 0x04, 0x01, 0x18,
            0x17, 0x24, 0x02, 0x01, 0x25, 0x03, 0x00, 0x06, 0x26, 0x04, 0x00, 0x00, 0x01, 0x00,
            0x18, 0x18, 0x28, 0x03, 0x24, 0xFF, 0x0B, 0x18,
        ]
    );
    assert_eq!(
        build_read_request(&[]),
        vec![0x15, 0x36, 0x00, 0x18, 0x28, 0x03, 0x24, 0xFF, 0x0B, 0x18]
    );
}

#[test]
fn im_error_texts() {
    assert_eq!(
        ImError::MissingField("FeatureMap").message(),
        "missing required IM field: FeatureMap"
    );
    assert_eq!(ImError::NotAStruct.message(), "expected anonymous structure at message root");
    assert_eq!(
        ImError::UnexpectedValue("x").message(),
        "unexpected TLV value for IM field: x"
    );
    assert_eq!(
        ImError::EmptyInvokeResponse.message(),
        "InvokeResponseIB had neither Command nor Status"
    );
}

#[test]
fn numbers_take_their_least_width() {
    let encode = |v: u64| {
        let mut w = TlvWriter::new();
        w.put_uint(Tag::Anonymous, v);
        w.finish()
    };
    assert_eq!(encode(0), vec![0x04, 0x00]);
    assert_eq!(encode(255), vec![0x04, 0xFF]);
    assert_eq!(encode(256), vec![0x05, 0x00, 0x01]);
    assert_eq!(encode(0x1_0000), vec![0x06, 0x00, 0x00, 0x01, 0x00]);
    assert_eq!(encode(u64::MAX), vec![0x07, 255, 255, 255, 255, 255, 255, 255, 255]);
    let encode = |v: i64| {
        let mut w = TlvWriter::new();
        w.put_int(Tag::Context(2), v);
        w.finish()
    };
    assert_eq!(encode(-128), vec![0x20, 0x02, 0x80]);
    assert_eq!(encode(128), vec![0x21, 0x02, 0x80, 0x00]);
    assert_eq!(encode(i64::MIN), vec![0x23, 0x02, 0, 0, 0, 0, 0, 0, 0, 0x80]);
}

#[test]
fn what_is_written_is_read_back() {
    let mut w = TlvWriter::new();
    w.start_structure(Tag::Anonymous);
    w.put_uint(Tag::Context(0), 70_000);
    w.put_int(Tag::Context(1), -70_000);
    w.put_bool(Tag::CommonProfile2(7), true);
    w.put_bytes(Tag::ImplicitProfile4(8), &[1, 2, 3]);
    w.put_utf8(Tag::FullyQualified6 { vendor: 1, profile: 2, tag: 3 }, "grün");
    w.put_null(Tag::FullyQualified8 { vendor: 1, profile: 2, tag: 70_000 });
    w.start_array(Tag::Context(9));
    w.put_uint(Tag::Anonymous, 5);
    w.end_container();
    w.end_container();
    let bytes = w.finish();
    let (elements, fault) = read_all(&bytes);
    assert_eq!(fault, None);
    let expected = vec![
        Element::ContainerStart { tag: Tag::Anonymous, kind: ContainerKind::Structure },
        Element::Scalar { tag: Tag::Context(0), value: Value::Uint(70_000) },
        Element::Scalar { tag: Tag::Context(1), value: Value::Int(-70_000) },
        Element::Scalar { tag: Tag::CommonProfile2(7), value: Value::Bool(true) },
        Element::Scalar { tag: Tag::ImplicitProfile4(8), value: Value::Bytes(vec![1, 2, 3]) },
        Element::Scalar {
            tag: Tag::FullyQualified6 { vendor: 1, profile: 2, tag: 3 },
            value: Value::Utf8("grün".to_string()),
        },
        Element::Scalar {
            tag: Tag::FullyQualified8 { vendor: 1, profile: 2, tag: 70_000 },
            value: Value::Null,
        },
        Element::ContainerStart { tag: Tag::Context(9), kind: ContainerKind::Array },
        Element::Scalar { tag: Tag::Anonymous, value: Value::Uint(5) },
        Element::ContainerEnd,
        Element::ContainerEnd,
    ];
    assert_eq!(elements, expected);
    // A prefix of the bytes gives a prefix of the elements.
    for cut in 0..bytes.len() {
        let (some, _) = read_all(&bytes[..cut]);
        assert!(some.len() < expected.len());
        assert_eq!(some[..], expected[..some.len()]);
    }
}

#[test]
fn nested_values_are_written_whole() {
    let value = Value::Structure(vec![
        (Tag::Context(0), Value::Uint(60)),
        (Tag::Context(1), Value::List(vec![(Tag::Anonymous, Value::Bool(false))])),
        (Tag::Context(2), Value::Array(vec![Value::Null, Value::Int(-1)])),
    ]);
    let mut w = TlvWriter::new();
    w.write_value(Tag::Context(2), &value);
    assert_eq!(
        w.finish(),
        vec![
            0x35, 0x02, 0x24, 0x00, 0x3C, 0x37, 0x01, 0x08, 0x18, 0x36, 0x02, 0x14, 0x00, 0xFF,
            0x18, 0x18,
        ]
    );
}

#[test]
fn broken_streams_have_a_fault() {
    assert!(matches!(TlvReader::new(&[0x04]).next(), Err(TlvError::UnexpectedEof)));
    assert!(matches!(TlvReader::new(&[0x1F]).next(), Err(TlvError::InvalidControl(0x1F))));
    assert!(TlvReader::new(&[]).next().unwrap().is_none());
    // Text that is not UTF-8.
    assert!(TlvReader::new(&[0x0C, 0x02, 0xC3, 0x28]).next().is_err());
    assert!(matches!(
        TlvReader::new(&[0x0C, 0x02, 0xC3, 0xA9]).next(),
        Ok(Some(Element::Scalar { tag: Tag::Anonymous, value: Value::Utf8(s) })) if s == "é"
    ));
}

#[test]
fn bytes_are_rendered_in_lower_case() {
    assert_eq!(hex(&[]), "");
    assert_eq!(hex(&[0x00, 0x0F, 0xA0, 0xFF]), "000fa0ff");
}
