//! Codecs of the `NetworkCommissioning` cluster.

use crate::clusters::response::{decode_status_response, status_response, text_view};
use crate::state_machine::{CommissioningError, RemediationHint, Stage};
use crate::tlv::laws::law_stream_roundtrip;
use crate::tlv::members::{
    bytes_field, last_field, lemma_written_structure, opening, uint_field, Ending, Opening,
};
use crate::tlv::{
    at, decode_all, encodable, encode_all, struct_start, Element, Item, Scalar,
    Stream, Tag, TlvReader, TlvWriter, Value,
};
use vstd::prelude::*;

verus! {

/// The number of the cluster.
pub const CLUSTER_ID: u32 = 0x0031;

/// The number of `AddOrUpdateWiFiNetwork`.
pub const ADD_OR_UPDATE_WIFI_NETWORK: u32 = 0x02;

/// The number of `ConnectNetwork`.
pub const CONNECT_NETWORK: u32 = 0x06;

/// The number of `NetworkConfigResponse`.
pub const NETWORK_CONFIG_RESPONSE: u32 = 0x05;

/// The number of `ConnectNetworkResponse`.
pub const CONNECT_NETWORK_RESPONSE: u32 = 0x07;

/// The number of the attribute `FeatureMap`.
pub const FEATURE_MAP: u32 = 0xFFFC;

/// The number of the attribute `ConnectMaxTimeSeconds`.
pub const CONNECT_MAX_TIME_SECONDS: u32 = 0x0009;

/// Which network interfaces a device has: one bit each.
#[derive(Copy, Clone, Debug, PartialEq, Eq, Hash, Structural)]
pub struct NetworkCommissioningFeature(u32);

impl View for NetworkCommissioningFeature {
    type V = u32;

    closed spec fn view(&self) -> u32 {
        self.0
    }
}

impl NetworkCommissioningFeature {
    /// A Wi-Fi interface.
    pub fn wifi() -> (features: Self)
        ensures
            features@ == 1,
    {
        NetworkCommissioningFeature(1)
    }

    /// A Thread interface.
    pub fn thread() -> (features: Self)
        ensures
            features@ == 2,
    {
        NetworkCommissioningFeature(2)
    }

    /// An Ethernet interface.
    pub fn ethernet() -> (features: Self)
        ensures
            features@ == 4,
    {
        NetworkCommissioningFeature(4)
    }

    /// The bits.
    pub fn bits(&self) -> (bits: u32)
        ensures
            bits == self@,
    {
        self.0
    }

    /// The interfaces among the given bits; the others are dropped.
    pub fn from_bits_truncate(bits: u32) -> (features: Self)
        ensures
            features@ == bits % 8,
    {
        assert(bits & 7 == bits % 8) by (bit_vector);
        NetworkCommissioningFeature(bits & 7)
    }

    /// Whether all the given interfaces are there.
    pub fn contains(&self, other: NetworkCommissioningFeature) -> (all: bool)
        ensures
            all == (self@ & other@ == other@),
    {
        self.0 & other.0 == other.0
    }

    /// The interfaces of both.
    pub fn union(self, other: NetworkCommissioningFeature) -> (both: Self)
        ensures
            both@ == self@ | other@,
    {
        NetworkCommissioningFeature(self.0 | other.0)
    }
}

/// The items of `AddOrUpdateWiFiNetwork`.
pub open spec fn wifi_network_items(
    ssid: Seq<u8>,
    credentials: Seq<u8>,
    breadcrumb: u64,
) -> Seq<Item> {
    seq![
        struct_start(),
        at(0, Scalar::Bytes(ssid)),
        at(1, Scalar::Bytes(credentials)),
        at(2, Scalar::Uint(breadcrumb)),
        Item::End,
    ]
}

/// Encodes `AddOrUpdateWiFiNetwork`: the name of the network under tag 0, its
/// credentials under tag 1, the breadcrumb under tag 2.
pub fn encode_add_or_update_wifi_network(
    ssid: &[u8],
    credentials: &[u8],
    breadcrumb: u64,
) -> (tlv: Vec<u8>)
    ensures
        tlv@ == encode_all(wifi_network_items(ssid@, credentials@, breadcrumb)),
{
    let mut w = TlvWriter::new();
    w.start_structure(Tag::Anonymous);
    w.put_bytes(Tag::Context(0), ssid);
    w.put_bytes(Tag::Context(1), credentials);
    w.put_uint(Tag::Context(2), breadcrumb);
    w.end_container();
    proof {
        assert(w@ =~= wifi_network_items(ssid@, credentials@, breadcrumb));
    }
    w.finish()
}

/// The items of `ConnectNetwork`.
pub open spec fn connect_network_items(network_id: Seq<u8>, breadcrumb: u64) -> Seq<Item> {
    seq![
        struct_start(),
        at(0, Scalar::Bytes(network_id)),
        at(1, Scalar::Uint(breadcrumb)),
        Item::End,
    ]
}

/// Encodes `ConnectNetwork`: the network under tag 0, the breadcrumb under tag
/// 1. A Wi-Fi network is known by its name.
pub fn encode_connect_network(network_id: &[u8], breadcrumb: u64) -> (tlv: Vec<u8>)
    ensures
        tlv@ == encode_all(connect_network_items(network_id@, breadcrumb)),
{
    let mut w = TlvWriter::new();
    w.start_structure(Tag::Anonymous);
    w.put_bytes(Tag::Context(0), network_id);
    w.put_uint(Tag::Context(1), breadcrumb);
    w.end_container();
    proof {
        assert(w@ =~= connect_network_items(network_id@, breadcrumb));
    }
    w.finish()
}

/// The unsigned integer at the front of a stream, under whatever tag.
pub open spec fn first_uint(stream: Stream) -> Option<u64> {
    if stream.items.len() == 0 {
        None
    } else {
        match stream.items[0] {
            Item::Scalar { value: Scalar::Uint(v), .. } => Some(v),
            _ => None,
        }
    }
}

fn read_first_uint(tlv: &[u8]) -> (value: Option<u64>)
    ensures
        value == first_uint(decode_all(tlv@)),
{
    let mut reader = TlvReader::new(tlv);
    match reader.next() {
        Ok(Some(Element::Scalar { tag: _, value: Value::Uint(v) })) => Some(v),
        _ => None,
    }
}

/// The interfaces in a value of `FeatureMap`.
pub open spec fn feature_map(tlv: Seq<u8>) -> Option<u32> {
    match first_uint(decode_all(tlv)) {
        Some(v) if v <= u32::MAX => Some((v % 8) as u32),
        _ => None,
    }
}

/// The time in a value of `ConnectMaxTimeSeconds`.
pub open spec fn connect_time(tlv: Seq<u8>) -> Option<u16> {
    match first_uint(decode_all(tlv)) {
        Some(v) if v <= u16::MAX => Some(v as u16),
        _ => None,
    }
}

/// Decodes the value of `FeatureMap`: an unsigned integer of 32 bits, of which
/// the bits of interfaces count.
pub fn decode_feature_map(tlv: &[u8]) -> (r: Result<
    NetworkCommissioningFeature,
    CommissioningError,
>)
    ensures
        match feature_map(tlv@) {
            Some(bits) => r matches Ok(features) && features@ == bits,
            None => r == Err::<NetworkCommissioningFeature, CommissioningError>(
                CommissioningError::MalformedResponse(Stage::ReadNetworkCommissioningInfo),
            ),
        },
{
    match read_first_uint(tlv) {
        Some(v) if v <= 0xFFFF_FFFF => Ok(
            NetworkCommissioningFeature::from_bits_truncate(v as u32),
        ),
        _ => Err(CommissioningError::MalformedResponse(Stage::ReadNetworkCommissioningInfo)),
    }
}

/// Decodes the value of `ConnectMaxTimeSeconds`: an unsigned integer of 16 bits.
pub fn decode_connect_max_time_seconds(tlv: &[u8]) -> (r: Result<u16, CommissioningError>)
    ensures
        match connect_time(tlv@) {
            Some(seconds) => r == Ok::<u16, CommissioningError>(seconds),
            None => r == Err::<u16, CommissioningError>(
                CommissioningError::MalformedResponse(Stage::ReadNetworkCommissioningInfo),
            ),
        },
{
    match read_first_uint(tlv) {
        Some(v) if v <= 0xFFFF => Ok(v as u16),
        _ => Err(CommissioningError::MalformedResponse(Stage::ReadNetworkCommissioningInfo)),
    }
}

/// A decoded `NetworkConfigResponse`.
#[derive(Debug, Clone, PartialEq, Eq)]
pub struct NetworkConfigResponse {
    /// The outcome; zero for success.
    pub networking_status: u8,
    /// Text for an operator.
    pub debug_text: Option<String>,
}

/// A decoded `ConnectNetworkResponse`.
#[derive(Debug, Clone, PartialEq, Eq)]
pub struct ConnectNetworkResponse {
    /// The outcome; zero for success.
    pub networking_status: u8,
    /// Text for an operator.
    pub debug_text: Option<String>,
    /// A number that the platform gives.
    pub error_value: Option<i32>,
}

/// Decodes `NetworkConfigResponse`; the stage goes into the error.
pub fn decode_network_config_response(stage: Stage, tlv: &[u8]) -> (r: Result<
    NetworkConfigResponse,
    CommissioningError,
>)
    ensures
        match status_response(false, tlv@) {
            Some(view) => r matches Ok(v) && v.networking_status == view.status && text_view(
                v.debug_text,
            ) == view.debug_text,
            None => r == Err::<NetworkConfigResponse, CommissioningError>(
                CommissioningError::MalformedResponse(stage),
            ),
        },
{
    match decode_status_response(false, tlv) {
        None => Err(CommissioningError::MalformedResponse(stage)),
        Some(fields) => Ok(
            NetworkConfigResponse {
                networking_status: fields.status,
                debug_text: fields.debug_text,
            },
        ),
    }
}

/// Decodes `ConnectNetworkResponse`; the stage goes into the error.
pub fn decode_connect_network_response(stage: Stage, tlv: &[u8]) -> (r: Result<
    ConnectNetworkResponse,
    CommissioningError,
>)
    ensures
        match status_response(true, tlv@) {
            Some(view) => {
                &&& r matches Ok(v)
                &&& v.networking_status == view.status
                &&& text_view(v.debug_text) == view.debug_text
                &&& v.error_value == view.error_value
            },
            None => r == Err::<ConnectNetworkResponse, CommissioningError>(
                CommissioningError::MalformedResponse(stage),
            ),
        },
{
    match decode_status_response(true, tlv) {
        None => Err(CommissioningError::MalformedResponse(stage)),
        Some(fields) => Ok(
            ConnectNetworkResponse {
                networking_status: fields.status,
                debug_text: fields.debug_text,
                error_value: fields.error_value,
            },
        ),
    }
}

/// What to do about a network that was refused with the given status.
pub open spec fn remediation(networking_status: u8) -> RemediationHint {
    if networking_status == 2 {
        RemediationHint::DeviceNetworkSlotsFull
    } else if networking_status == 3 || networking_status == 5 {
        RemediationHint::CheckSsid
    } else if networking_status == 6 {
        RemediationHint::CheckRegulatoryRegion
    } else if networking_status == 7 {
        RemediationHint::CheckPassphrase
    } else if networking_status == 8 {
        RemediationHint::UpgradeSecurityMode
    } else if networking_status == 10 || networking_status == 11 {
        RemediationHint::DeviceIpStackFailure
    } else {
        RemediationHint::NoHint
    }
}

/// What to do about a network that was refused with the given status.
pub fn remediation_for(networking_status: u8) -> (hint: RemediationHint)
    ensures
        hint == remediation(networking_status),
{
    match networking_status {
        2 => RemediationHint::DeviceNetworkSlotsFull,
        3 | 5 => RemediationHint::CheckSsid,
        6 => RemediationHint::CheckRegulatoryRegion,
        7 => RemediationHint::CheckPassphrase,
        8 => RemediationHint::UpgradeSecurityMode,
        10 | 11 => RemediationHint::DeviceIpStackFailure,
        _ => RemediationHint::NoHint,
    }
}

/// An unsigned integer that stands alone is read back, under whatever tag it
/// was written.
pub proof fn law_attribute_roundtrip(tag: Tag, value: u64)
    ensures
        first_uint(decode_all(encode_all(seq![Item::Scalar { tag, value: Scalar::Uint(value) }])))
            == Some(value),
{
    let items = seq![Item::Scalar { tag, value: Scalar::Uint(value) }];
    assert forall|i: int| 0 <= i < items.len() implies encodable(#[trigger] items[i]) by {}
    law_stream_roundtrip(items);
}

/// A device reads the name of the network of `AddOrUpdateWiFiNetwork` under tag
/// 0, its credentials under tag 1 and the breadcrumb under tag 2, and nothing
/// else.
pub proof fn law_wifi_network(ssid: Seq<u8>, credentials: Seq<u8>, breadcrumb: u64)
    requires
        ssid.len() <= u64::MAX,
        credentials.len() <= u64::MAX,
    ensures
        opening(
            decode_all(encode_all(wifi_network_items(ssid, credentials, breadcrumb))),
        ) matches Opening::Members(members, ending) && {
            &&& ending == Ending::Closed
            &&& members.len() == 3
            &&& bytes_field(members, 0) == Some(ssid)
            &&& bytes_field(members, 1) == Some(credentials)
            &&& uint_field(members, 2) == Some(breadcrumb)
        },
{
    let inner = seq![
        Item::Scalar { tag: Tag::Context(0), value: Scalar::Bytes(ssid) },
        Item::Scalar { tag: Tag::Context(1), value: Scalar::Bytes(credentials) },
        Item::Scalar { tag: Tag::Context(2), value: Scalar::Uint(breadcrumb) },
    ];
    assert(wifi_network_items(ssid, credentials, breadcrumb) =~= seq![struct_start()] + inner
        + seq![Item::End]);
    lemma_written_structure(inner);
    reveal_with_fuel(last_field, 4);
}

/// A device reads the network of `ConnectNetwork` under tag 0 and the breadcrumb
/// under tag 1, and nothing else.
pub proof fn law_connect_network(network_id: Seq<u8>, breadcrumb: u64)
    requires
        network_id.len() <= u64::MAX,
    ensures
        opening(
            decode_all(encode_all(connect_network_items(network_id, breadcrumb))),
        ) matches Opening::Members(members, ending) && {
            &&& ending == Ending::Closed
            &&& members.len() == 2
            &&& bytes_field(members, 0) == Some(network_id)
            &&& uint_field(members, 1) == Some(breadcrumb)
        },
{
    let inner = seq![
        Item::Scalar { tag: Tag::Context(0), value: Scalar::Bytes(network_id) },
        Item::Scalar { tag: Tag::Context(1), value: Scalar::Uint(breadcrumb) },
    ];
    assert(connect_network_items(network_id, breadcrumb) =~= seq![struct_start()] + inner + seq![
        Item::End,
    ]);
    lemma_written_structure(inner);
    reveal_with_fuel(last_field, 3);
}

/// Of the value of `FeatureMap` the lowest three bits count, one for each
/// interface; a value of more than 32 bits is refused.
pub proof fn law_feature_map(tag: Tag, wifi: bool, thread: bool, ethernet: bool, others: u64)
    requires
        others < 0x2000_0000_0000_0000,
    ensures
        ({
            let bits = (if wifi {
                1int
            } else {
                0
            }) + (if thread {
                2int
            } else {
                0
            }) + (if ethernet {
                4int
            } else {
                0
            });
            let tlv = encode_all(
                seq![Item::Scalar { tag, value: Scalar::Uint((bits + 8 * others) as u64) }],
            );
            if others < 0x2000_0000 {
                feature_map(tlv) matches Some(features) && features == bits
            } else {
                feature_map(tlv) is None
            }
        }),
{
    let bits = (if wifi {
        1int
    } else {
        0
    }) + (if thread {
        2int
    } else {
        0
    }) + (if ethernet {
        4int
    } else {
        0
    });
    law_attribute_roundtrip(tag, (bits + 8 * others) as u64);
}

/// The value of `ConnectMaxTimeSeconds` is read as it is, and refused if it does
/// not fit in 16 bits.
pub proof fn law_connect_time(tag: Tag, seconds: u64)
    ensures
        ({
            let read = connect_time(
                encode_all(seq![Item::Scalar { tag, value: Scalar::Uint(seconds) }]),
            );
            if seconds < 0x1_0000 {
                read matches Some(v) && v == seconds
            } else {
                read is None
            }
        }),
{
    law_attribute_roundtrip(tag, seconds);
}

/// A value that does not start with an unsigned integer has no interfaces and no
/// time.
pub proof fn law_other_values_are_refused(tlv: Seq<u8>)
    requires
        decode_all(tlv).items.len() > 0 ==> !(decode_all(tlv).items[0] matches Item::Scalar {
            tag: _,
            value: Scalar::Uint(_),
        }),
    ensures
        feature_map(tlv) is None,
        connect_time(tlv) is None,
{
}

/// Which statuses of a network have which remedy; all others have none.
pub proof fn law_remedies(status: u8)
    ensures
        remediation(status) is DeviceNetworkSlotsFull <==> status == 2,
        remediation(status) is CheckSsid <==> status == 3 || status == 5,
        remediation(status) is CheckRegulatoryRegion <==> status == 6,
        remediation(status) is CheckPassphrase <==> status == 7,
        remediation(status) is UpgradeSecurityMode <==> status == 8,
        remediation(status) is DeviceIpStackFailure <==> status == 10 || status == 11,
{
}

} // verus!
