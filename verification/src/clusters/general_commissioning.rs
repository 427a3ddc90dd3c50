//! Codecs of the `GeneralCommissioning` cluster.

use crate::clusters::response::{
    decode_status_response, law_status_roundtrip, status_items, status_response, text_view,
    StatusView,
};
use crate::state_machine::{CommissioningError, Stage};
use crate::tlv::layout::law_structure_layout;
use crate::tlv::members::{
    element_uint, items_of, last_field, lemma_field_push, lemma_next_member,
    lemma_written_structure, open_structure, opening, structure, uint_at, uint_field, utf8_field,
    Ending, Opened, Opening,
};
use crate::tlv::{at, decode_all, encode_all, struct_start, Item, Scalar, Tag, TlvWriter};
use vstd::prelude::*;

verus! {

/// The number of the cluster.
pub const CLUSTER_ID: u32 = 0x0030;

/// The number of `ArmFailSafe`.
pub const ARM_FAIL_SAFE: u32 = 0x00;

/// The number of `SetRegulatoryConfig`.
pub const SET_REGULATORY_CONFIG: u32 = 0x02;

/// The number of `CommissioningComplete`.
pub const COMMISSIONING_COMPLETE: u32 = 0x04;

/// The fields of `ArmFailSafe`.
#[derive(Copy, Clone, Debug, PartialEq, Eq, Structural)]
pub struct ArmFailSafeFields {
    /// For how many seconds the failsafe is armed; 0 disarms it.
    pub expiry_length_seconds: u16,
    /// The breadcrumb of the commissioner.
    pub breadcrumb: u64,
}

/// A decoded `ArmFailSafeResponse`.
#[derive(Debug, Clone, PartialEq, Eq)]
pub struct ArmFailSafeResponse {
    /// The outcome; zero for success.
    pub error_code: u8,
    /// Text for an operator.
    pub debug_text: Option<String>,
}

/// A decoded `SetRegulatoryConfigResponse`.
#[derive(Debug, Clone, PartialEq, Eq)]
pub struct SetRegulatoryConfigResponse {
    /// The outcome; zero for success.
    pub error_code: u8,
    /// Text for an operator.
    pub debug_text: Option<String>,
}

/// Where a device may be used.
#[derive(Copy, Clone, Debug, PartialEq, Eq, Structural)]
#[non_exhaustive]
pub enum RegulatoryLocation {
    /// Indoors.
    Indoor,
    /// Outdoors.
    Outdoor,
    /// Both.
    IndoorOutdoor,
}

impl RegulatoryLocation {
    /// The number of the location on the wire.
    pub open spec fn number(self) -> u8 {
        match self {
            RegulatoryLocation::Indoor => 0,
            RegulatoryLocation::Outdoor => 1,
            RegulatoryLocation::IndoorOutdoor => 2,
        }
    }
}

/// The limits that a device sets for commissioning.
#[derive(Debug, Clone, Copy, PartialEq, Eq, Structural)]
pub struct BasicCommissioningInfo {
    /// The longest time, in seconds, for which the failsafe can be armed at
    /// once.
    pub failsafe_expiry_length_seconds: u16,
    /// The longest time, in seconds, for which the failsafe can be armed in
    /// all; 0 if the device does not say.
    pub max_cumulative_failsafe_seconds: u16,
}

/// The fields in a payload of `ArmFailSafe`. All are 0 where the payload is no
/// whole anonymous structure. A field that is absent or does not fit counts as
/// 0, and of a field that occurs more than once the last occurrence counts.
pub open spec fn arm_fail_safe_fields(tlv: Seq<u8>) -> ArmFailSafeFields {
    match opening(decode_all(tlv)) {
        Opening::Members(members, Ending::Closed) => ArmFailSafeFields {
            expiry_length_seconds: match uint_field(members, 0) {
                Some(v) => if v <= u16::MAX {
                    v as u16
                } else {
                    0
                },
                None => 0,
            },
            breadcrumb: match uint_field(members, 1) {
                Some(v) => v,
                None => 0,
            },
        },
        _ => ArmFailSafeFields { expiry_length_seconds: 0, breadcrumb: 0 },
    }
}

/// Decodes a payload of `ArmFailSafe`; one that cannot be parsed gives zeroes.
pub fn decode_arm_fail_safe_fields(tlv: &[u8]) -> (fields: ArmFailSafeFields)
    ensures
        fields == arm_fail_safe_fields(tlv@),
{
    let members = match open_structure(tlv) {
        Opened::Members(members, Ending::Closed) => members,
        _ => {
            return ArmFailSafeFields { expiry_length_seconds: 0, breadcrumb: 0 };
        },
    };
    let ghost items = items_of(members@);
    let mut expiry: u16 = 0;
    let mut breadcrumb: u64 = 0;
    let mut i: usize = 0;
    while i < members.len()
        invariant
            i <= members@.len(),
            items == items_of(members@),
            match uint_field(items.take(i as int), 0) {
                Some(v) => expiry == (if v <= u16::MAX {
                    v as u16
                } else {
                    0
                }),
                None => expiry == 0,
            },
            match uint_field(items.take(i as int), 1) {
                Some(v) => breadcrumb == v,
                None => breadcrumb == 0,
            },
        decreases members@.len() - i,
    {
        proof {
            lemma_next_member(members@, i as int);
        }
        if let Some(v) = element_uint(&members[i], 0) {
            expiry = if v <= 0xFFFF {
                v as u16
            } else {
                0
            };
        } else if let Some(v) = element_uint(&members[i], 1) {
            breadcrumb = v;
        }
        i = i + 1;
    }
    proof {
        assert(items.take(i as int) =~= items);
    }
    ArmFailSafeFields { expiry_length_seconds: expiry, breadcrumb }
}

/// The items of `ArmFailSafeResponse`.
pub open spec fn arm_fail_safe_response_items(error_code: u8) -> Seq<Item> {
    seq![struct_start(), at(0, Scalar::Uint(error_code as u64)), Item::End]
}

/// Encodes `ArmFailSafeResponse`: the outcome under tag 0.
pub fn encode_arm_fail_safe_response(error_code: u8) -> (tlv: Vec<u8>)
    ensures
        tlv@ == encode_all(arm_fail_safe_response_items(error_code)),
{
    let mut w = TlvWriter::new();
    w.start_structure(Tag::Anonymous);
    w.put_uint(Tag::Context(0), error_code as u64);
    w.end_container();
    proof {
        assert(w@ =~= arm_fail_safe_response_items(error_code));
    }
    w.finish()
}

/// The items of `ArmFailSafe`.
pub open spec fn arm_fail_safe_items(expiry_length_seconds: u16, breadcrumb: u64) -> Seq<Item> {
    seq![
        struct_start(),
        at(0, Scalar::Uint(expiry_length_seconds as u64)),
        at(1, Scalar::Uint(breadcrumb)),
        Item::End,
    ]
}

/// Encodes `ArmFailSafe`: the time under tag 0, the breadcrumb under tag 1. A
/// time of 0 disarms the failsafe.
pub fn encode_arm_fail_safe(expiry_length_seconds: u16, breadcrumb: u64) -> (tlv: Vec<u8>)
    ensures
        tlv@ == encode_all(arm_fail_safe_items(expiry_length_seconds, breadcrumb)),
{
    let mut w = TlvWriter::new();
    w.start_structure(Tag::Anonymous);
    w.put_uint(Tag::Context(0), expiry_length_seconds as u64);
    w.put_uint(Tag::Context(1), breadcrumb);
    w.end_container();
    proof {
        assert(w@ =~= arm_fail_safe_items(expiry_length_seconds, breadcrumb));
    }
    w.finish()
}

/// The items of `SetRegulatoryConfig`.
pub open spec fn regulatory_config_items(
    location: RegulatoryLocation,
    country_code: Seq<char>,
    breadcrumb: u64,
) -> Seq<Item> {
    seq![
        struct_start(),
        at(0, Scalar::Uint(location.number() as u64)),
        at(1, Scalar::Utf8(country_code)),
        at(2, Scalar::Uint(breadcrumb)),
        Item::End,
    ]
}

/// Encodes `SetRegulatoryConfig`: the location under tag 0, the country under
/// tag 1, the breadcrumb under tag 2.
pub fn encode_set_regulatory_config(
    new_regulatory_config: RegulatoryLocation,
    country_code: &str,
    breadcrumb: u64,
) -> (tlv: Vec<u8>)
    ensures
        tlv@ == encode_all(
            regulatory_config_items(new_regulatory_config, country_code@, breadcrumb),
        ),
{
    let number: u8 = match new_regulatory_config {
        RegulatoryLocation::Indoor => 0,
        RegulatoryLocation::Outdoor => 1,
        RegulatoryLocation::IndoorOutdoor => 2,
    };
    let mut w = TlvWriter::new();
    w.start_structure(Tag::Anonymous);
    w.put_uint(Tag::Context(0), number as u64);
    w.put_utf8(Tag::Context(1), country_code);
    w.put_uint(Tag::Context(2), breadcrumb);
    w.end_container();
    proof {
        assert(w@ =~= regulatory_config_items(new_regulatory_config, country_code@, breadcrumb));
    }
    w.finish()
}

/// Encodes `CommissioningComplete`, which has no fields.
pub fn encode_commissioning_complete() -> (tlv: Vec<u8>)
    ensures
        tlv@ == encode_all(seq![struct_start(), Item::End]),
        tlv@ == seq![0x15u8, 0x18u8],
{
    let mut w = TlvWriter::new();
    w.start_structure(Tag::Anonymous);
    w.end_container();
    proof {
        assert(w@ =~= seq![struct_start(), Item::End]);
        law_structure_layout(Seq::empty());
        assert(seq![struct_start()] + Seq::<Item>::empty() + seq![Item::End] =~= seq![
            struct_start(),
            Item::End,
        ]);
        assert(seq![0x15u8] + encode_all(Seq::<Item>::empty()) + seq![0x18u8] =~= seq![
            0x15u8,
            0x18u8,
        ]);
    }
    w.finish()
}

/// Decodes the outcome and the text of a response; the stage goes into the
/// error.
pub fn decode_commissioning_error_response(stage: Stage, tlv: &[u8]) -> (r: Result<
    (u8, Option<String>),
    CommissioningError,
>)
    ensures
        match status_response(false, tlv@) {
            Some(view) => r matches Ok((code, text)) && code == view.status && text_view(text)
                == view.debug_text,
            None => r == Err::<(u8, Option<String>), CommissioningError>(
                CommissioningError::MalformedResponse(stage),
            ),
        },
{
    match decode_status_response(false, tlv) {
        None => Err(CommissioningError::MalformedResponse(stage)),
        Some(fields) => Ok((fields.status, fields.debug_text)),
    }
}

/// Decodes `ArmFailSafeResponse`.
pub fn decode_arm_fail_safe_response(tlv: &[u8]) -> (r: Result<
    ArmFailSafeResponse,
    CommissioningError,
>)
    ensures
        match status_response(false, tlv@) {
            Some(view) => r matches Ok(v) && v.error_code == view.status && text_view(v.debug_text)
                == view.debug_text,
            None => r == Err::<ArmFailSafeResponse, CommissioningError>(
                CommissioningError::MalformedResponse(Stage::ArmFailsafe),
            ),
        },
{
    match decode_commissioning_error_response(Stage::ArmFailsafe, tlv) {
        Err(e) => Err(e),
        Ok((error_code, debug_text)) => Ok(ArmFailSafeResponse { error_code, debug_text }),
    }
}

/// Decodes `SetRegulatoryConfigResponse`.
pub fn decode_set_regulatory_config_response(tlv: &[u8]) -> (r: Result<
    SetRegulatoryConfigResponse,
    CommissioningError,
>)
    ensures
        match status_response(false, tlv@) {
            Some(view) => r matches Ok(v) && v.error_code == view.status && text_view(v.debug_text)
                == view.debug_text,
            None => r == Err::<SetRegulatoryConfigResponse, CommissioningError>(
                CommissioningError::MalformedResponse(Stage::ConfigRegulatory),
            ),
        },
{
    match decode_commissioning_error_response(Stage::ConfigRegulatory, tlv) {
        Err(e) => Err(e),
        Ok((error_code, debug_text)) => Ok(SetRegulatoryConfigResponse { error_code, debug_text }),
    }
}

/// The unsigned integer of an item under a context tag, if it fits in 16 bits.
pub open spec fn uint16_at(item: Item, tag: u8) -> Option<u16> {
    match uint_at(item, tag) {
        Some(v) => if v <= u16::MAX {
            Some(v as u16)
        } else {
            None
        },
        None => None,
    }
}

/// The limits in a payload: the last time under tag 0, which has to fit in 16
/// bits, and the last time under tag 1 that does. Nothing if the structure is
/// not closed.
pub open spec fn basic_commissioning_info(tlv: Seq<u8>) -> Option<BasicCommissioningInfo> {
    match opening(decode_all(tlv)) {
        Opening::Members(members, Ending::Closed) => match uint_field(members, 0) {
            Some(v) => if v <= u16::MAX {
                Some(
                    BasicCommissioningInfo {
                        failsafe_expiry_length_seconds: v as u16,
                        max_cumulative_failsafe_seconds: match last_field(
                            members,
                            |i: Item| uint16_at(i, 1),
                        ) {
                            Some(n) => n,
                            None => 0,
                        },
                    },
                )
            } else {
                None
            },
            None => None,
        },
        _ => None,
    }
}

/// Decodes the limits of a device, if they can be read.
pub fn decode_basic_commissioning_info(tlv: &[u8]) -> (info: Option<BasicCommissioningInfo>)
    ensures
        info == basic_commissioning_info(tlv@),
{
    let (members, ending) = match open_structure(tlv) {
        Opened::Members(members, ending) => (members, ending),
        _ => {
            return None;
        },
    };
    let ghost items = items_of(members@);
    let mut failsafe: Option<u16> = None;
    let mut max_cumulative: u16 = 0;
    let mut i: usize = 0;
    while i < members.len()
        invariant
            i <= members@.len(),
            items == items_of(members@),
            match uint_field(items.take(i as int), 0) {
                Some(v) => failsafe == (if v <= u16::MAX {
                    Some(v as u16)
                } else {
                    None
                }),
                None => failsafe is None,
            },
            match last_field(items.take(i as int), |item: Item| uint16_at(item, 1)) {
                Some(v) => max_cumulative == v,
                None => max_cumulative == 0,
            },
        decreases members@.len() - i,
    {
        proof {
            lemma_next_member(members@, i as int);
        }
        if let Some(v) = element_uint(&members[i], 0) {
            failsafe = if v <= 0xFFFF {
                Some(v as u16)
            } else {
                None
            };
        } else if let Some(v) = element_uint(&members[i], 1) {
            if v <= 0xFFFF {
                max_cumulative = v as u16;
            }
        }
        i = i + 1;
    }
    proof {
        assert(items.take(i as int) =~= items);
    }
    if ending != Ending::Closed {
        return None;
    }
    match failsafe {
        None => None,
        Some(seconds) => Some(
            BasicCommissioningInfo {
                failsafe_expiry_length_seconds: seconds,
                max_cumulative_failsafe_seconds: max_cumulative,
            },
        ),
    }
}

/// A device reads from `ArmFailSafe` what was written into it.
pub proof fn law_arm_fail_safe_roundtrip(expiry_length_seconds: u16, breadcrumb: u64)
    ensures
        arm_fail_safe_fields(encode_all(arm_fail_safe_items(expiry_length_seconds, breadcrumb)))
            == (ArmFailSafeFields { expiry_length_seconds, breadcrumb }),
{
    let first = at(0, Scalar::Uint(expiry_length_seconds as u64));
    let second = at(1, Scalar::Uint(breadcrumb));
    let inner = seq![first, second];
    lemma_written_structure(inner);
    assert(seq![struct_start()] + inner + seq![Item::End] =~= arm_fail_safe_items(
        expiry_length_seconds,
        breadcrumb,
    ));
    assert(inner.drop_last() =~= seq![first]);
    assert(uint_field(seq![first], 0) == Some(expiry_length_seconds as u64));
    assert(uint_field(inner, 0) == Some(expiry_length_seconds as u64));
    assert(uint_field(inner, 1) == Some(breadcrumb));
}

/// The limits of a device are read as they were written.
pub proof fn law_limits_are_read(info: BasicCommissioningInfo)
    ensures
        basic_commissioning_info(
            structure(
                seq![
                    at(0, Scalar::Uint(info.failsafe_expiry_length_seconds as u64)),
                    at(1, Scalar::Uint(info.max_cumulative_failsafe_seconds as u64)),
                ],
            ),
        ) == Some(info),
{
    let nothing = Seq::<Item>::empty();
    let first = at(0, Scalar::Uint(info.failsafe_expiry_length_seconds as u64));
    let second = at(1, Scalar::Uint(info.max_cumulative_failsafe_seconds as u64));
    let one = nothing.push(first);
    let two = one.push(second);
    assert(two =~= seq![first, second]);
    lemma_written_structure(two);
    lemma_field_push(nothing, first, |i: Item| uint_at(i, 0));
    lemma_field_push(one, second, |i: Item| uint_at(i, 0));
    lemma_field_push(nothing, first, |i: Item| uint16_at(i, 1));
    lemma_field_push(one, second, |i: Item| uint16_at(i, 1));
}

/// The answer to `ArmFailSafe` is read as the outcome that it was written with.
pub proof fn law_arm_fail_safe_response_roundtrip(error_code: u8)
    ensures
        status_response(
            false,
            encode_all(seq![struct_start(), at(0, Scalar::Uint(error_code as u64)), Item::End]),
        ) == Some(StatusView { status: error_code, debug_text: None, error_value: None }),
{
    let view = StatusView { status: error_code, debug_text: None, error_value: None };
    law_status_roundtrip(false, view);
    assert(seq![struct_start()] + status_items(view) + seq![Item::End] =~= seq![
        struct_start(),
        at(0, Scalar::Uint(error_code as u64)),
        Item::End,
    ]);
}

/// A device reads the time of `ArmFailSafe` under tag 0 and the breadcrumb under
/// tag 1, and nothing else.
pub proof fn law_arm_fail_safe_request(expiry_length_seconds: u16, breadcrumb: u64)
    ensures
        opening(
            decode_all(encode_all(arm_fail_safe_items(expiry_length_seconds, breadcrumb))),
        ) matches Opening::Members(members, ending) && {
            &&& ending == Ending::Closed
            &&& members.len() == 2
            &&& uint_field(members, 0) == Some(expiry_length_seconds as u64)
            &&& uint_field(members, 1) == Some(breadcrumb)
        },
{
    let inner = seq![
        Item::Scalar { tag: Tag::Context(0), value: Scalar::Uint(expiry_length_seconds as u64) },
        Item::Scalar { tag: Tag::Context(1), value: Scalar::Uint(breadcrumb) },
    ];
    assert(arm_fail_safe_items(expiry_length_seconds, breadcrumb) =~= seq![struct_start()] + inner
        + seq![Item::End]);
    lemma_written_structure(inner);
    reveal_with_fuel(last_field, 3);
}

/// A device reads the location of `SetRegulatoryConfig` under tag 0 (0 for
/// indoors, 1 for outdoors, 2 for both), the country under tag 1 and the
/// breadcrumb under tag 2, and nothing else.
pub proof fn law_regulatory_config(
    location: RegulatoryLocation,
    country_code: Seq<char>,
    breadcrumb: u64,
)
    requires
        vstd::utf8::encode_utf8(country_code).len() <= u64::MAX,
    ensures
        opening(
            decode_all(encode_all(regulatory_config_items(location, country_code, breadcrumb))),
        ) matches Opening::Members(members, ending) && {
            &&& ending == Ending::Closed
            &&& members.len() == 3
            &&& uint_field(members, 0) == Some(
                match location {
                    RegulatoryLocation::Indoor => 0u64,
                    RegulatoryLocation::Outdoor => 1u64,
                    RegulatoryLocation::IndoorOutdoor => 2u64,
                },
            )
            &&& utf8_field(members, 1) == Some(country_code)
            &&& uint_field(members, 2) == Some(breadcrumb)
        },
{
    let number: u64 = match location {
        RegulatoryLocation::Indoor => 0u64,
        RegulatoryLocation::Outdoor => 1u64,
        RegulatoryLocation::IndoorOutdoor => 2u64,
    };
    let inner = seq![
        Item::Scalar { tag: Tag::Context(0), value: Scalar::Uint(number) },
        Item::Scalar { tag: Tag::Context(1), value: Scalar::Utf8(country_code) },
        Item::Scalar { tag: Tag::Context(2), value: Scalar::Uint(breadcrumb) },
    ];
    assert(regulatory_config_items(location, country_code, breadcrumb) =~= seq![struct_start()]
        + inner + seq![Item::End]);
    lemma_written_structure(inner);
    reveal_with_fuel(last_field, 4);
}

/// The answer to `ArmFailSafe` holds the outcome under tag 0, and nothing else.
pub proof fn law_arm_fail_safe_response(error_code: u8)
    ensures
        opening(
            decode_all(encode_all(arm_fail_safe_response_items(error_code))),
        ) matches Opening::Members(members, ending) && {
            &&& ending == Ending::Closed
            &&& members.len() == 1
            &&& uint_field(members, 0) == Some(error_code as u64)
        },
{
    let inner = seq![
        Item::Scalar { tag: Tag::Context(0), value: Scalar::Uint(error_code as u64) },
    ];
    assert(arm_fail_safe_response_items(error_code) =~= seq![struct_start()] + inner + seq![
        Item::End,
    ]);
    lemma_written_structure(inner);
    reveal_with_fuel(last_field, 2);
}

/// The fields of `ArmFailSafe` are the number under tag 0, if it is below 65536,
/// and the number under tag 1; what is absent or does not fit is 0, and so is
/// everything in a payload that is no closed structure.
pub proof fn law_arm_fail_safe_fields(tlv: Seq<u8>)
    ensures
        ({
            let fields = arm_fail_safe_fields(tlv);
            if let Opening::Members(members, Ending::Closed) = opening(decode_all(tlv)) {
                &&& uint_field(members, 0) matches Some(v) ==> fields.expiry_length_seconds == (
                if v < 0x1_0000 {
                    v as int
                } else {
                    0
                })
                &&& uint_field(members, 0) is None ==> fields.expiry_length_seconds == 0
                &&& uint_field(members, 1) matches Some(v) ==> fields.breadcrumb == v
                &&& uint_field(members, 1) is None ==> fields.breadcrumb == 0
            } else {
                fields.expiry_length_seconds == 0 && fields.breadcrumb == 0
            }
        }),
{
}

/// The limits of a device are there exactly if a closed structure has a number
/// below 65536 under tag 0, which is then the longest time at once.
pub proof fn law_limits_fields(tlv: Seq<u8>)
    ensures
        basic_commissioning_info(tlv) is Some <==> (opening(
            decode_all(tlv),
        ) matches Opening::Members(members, Ending::Closed) && (uint_field(
            members,
            0,
        ) matches Some(v) && v < 0x1_0000)),
        basic_commissioning_info(tlv) matches Some(info) ==> (opening(
            decode_all(tlv),
        ) matches Opening::Members(members, _) && uint_field(members, 0) == Some(
            info.failsafe_expiry_length_seconds as u64,
        ) && (info.max_cumulative_failsafe_seconds != 0 ==> members.contains(
            Item::Scalar {
                tag: Tag::Context(1),
                value: Scalar::Uint(info.max_cumulative_failsafe_seconds as u64),
            },
        ))),
{
    if let Opening::Members(members, _) = opening(decode_all(tlv)) {
        let pick = |i: Item| uint16_at(i, 1);
        if last_field(members, pick) is Some {
            crate::tlv::members::lemma_field_witness(members, pick);
        }
    }
}

} // verus!
