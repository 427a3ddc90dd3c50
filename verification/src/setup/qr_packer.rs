//! The fixed block of a QR code: 88 bits in eleven bytes, the lowest bit first.
//!
//! From the lowest bit on: version 3, vendor 16, product 16, flow 2,
//! capabilities 8, discriminator 12, passcode 27, and 4 bits of padding.

use crate::setup::base38::{
    ascii_text, decode_bytes, decoded, encode, encoded, law_base38_length, law_base38_roundtrip,
    lemma_text_bytes,
};
use crate::setup::{
    is_payload, passcode_fault, CommissioningFlow, Discriminator, DiscoveryCapabilities, Passcode,
    PayloadView, Error, SetupPayload,
};
use crate::text::push_text;
use crate::tlv::laws::{lemma_le_bytes_len, lemma_le_roundtrip, lemma_le_value_bound};
use crate::tlv::{le_bytes, le_value, pow256};
use vstd::prelude::*;
use vstd::slice::slice_subrange;
use vstd::utf8::encode_utf8;

verus! {

/// The length of the fixed block.
pub const FIXED_BYTE_LEN: usize = 11;

/// The number that the fields of a payload make: each field stands above those
/// before it.
pub open spec fn block_number(p: PayloadView) -> nat {
    (p.version % 8) as nat + 8 * (p.vendor_id->Some_0 as nat + 0x1_0000 * (
    p.product_id->Some_0 as nat + 0x1_0000 * (p.commissioning_flow.number() as nat + 4 * (
    p.discovery_capabilities as nat + 0x100 * (p.discriminator as nat + 0x1000
        * p.passcode as nat)))))
}

/// The fixed block of a payload, or why it has none.
pub open spec fn packed(p: PayloadView) -> Result<Seq<u8>, Error> {
    if p.vendor_id is None || p.product_id is None {
        Err(Error::QrRequiresVidPid)
    } else if p.commissioning_flow == CommissioningFlow::Custom {
        Err(Error::CustomFlowUnsupported)
    } else {
        Ok(le_bytes(block_number(p), 11))
    }
}

/// The flow with the given number.
pub open spec fn flow_of(number: nat) -> Option<CommissioningFlow> {
    if number == 0 {
        Some(CommissioningFlow::Standard)
    } else if number == 1 {
        Some(CommissioningFlow::UserIntent)
    } else if number == 2 {
        Some(CommissioningFlow::Custom)
    } else {
        None
    }
}

/// The payload in a number, or why there is none.
pub open spec fn payload_of(n: nat) -> Result<PayloadView, Error> {
    let above_version = n / 8;
    let above_vendor = above_version / 0x1_0000;
    let above_product = above_vendor / 0x1_0000;
    let above_flow = above_product / 4;
    let above_capabilities = above_flow / 0x100;
    let above_discriminator = above_capabilities / 0x1000;
    let passcode = (above_discriminator % 0x800_0000) as u32;
    match flow_of(above_product % 4) {
        None => Err(Error::CommissioningFlowReserved((above_product % 4) as u8)),
        Some(commissioning_flow) => match passcode_fault(passcode) {
            Some(e) => Err(e),
            None => Ok(
                PayloadView {
                    version: (n % 8) as u8,
                    vendor_id: Some((above_version % 0x1_0000) as u16),
                    product_id: Some((above_vendor % 0x1_0000) as u16),
                    commissioning_flow,
                    discovery_capabilities: (above_flow % 0x100) as u8,
                    discriminator: (above_capabilities % 0x1000) as u16,
                    passcode,
                },
            ),
        },
    }
}

/// The payload in a fixed block, or why there is none.
pub open spec fn unpacked(bytes: Seq<u8>) -> Result<PayloadView, Error> {
    payload_of(le_value(bytes))
}

fn write_block(value: u128) -> (bytes: [u8; 11])
    ensures
        bytes@ == le_bytes(value as nat, 11),
{
    let mut bytes: [u8; 11] = [0; 11];
    let mut rest: u128 = value;
    let mut i: usize = 0;
    let ghost all = le_bytes(value as nat, 11);
    proof {
        lemma_le_bytes_len(value as nat, 11);
        assert(all.skip(0) =~= all);
    }
    while i < 11
        invariant
            i <= 11,
            bytes@.len() == 11,
            all.len() == 11,
            all.skip(i as int) == le_bytes(rest as nat, (11 - i) as nat),
            forall|j: int| 0 <= j < i ==> bytes@[j] == all[j],
        decreases 11 - i,
    {
        let low = (rest % 256) as u8;
        proof {
            let tail = le_bytes((rest / 256) as nat, (11 - i - 1) as nat);
            assert(le_bytes(rest as nat, (11 - i) as nat) =~= seq![low] + tail);
            assert(all[i as int] == all.skip(i as int)[0]);
            assert(all.skip(i + 1) =~= all.skip(i as int).skip(1));
            assert((seq![low] + tail).skip(1) =~= tail);
        }
        bytes[i] = low;
        rest = rest / 256;
        i = i + 1;
    }
    proof {
        assert(bytes@ =~= all);
    }
    bytes
}

fn read_block(bytes: &[u8; 11]) -> (value: u128)
    ensures
        value == le_value(bytes@),
        value < pow256(11),
{
    let mut value: u128 = 0;
    let mut i: usize = 11;
    let ghost all = bytes@;
    proof {
        assert(all.skip(11).len() == 0);
        reveal_with_fuel(pow256, 12);
    }
    while i > 0
        invariant
            i <= 11,
            all == bytes@,
            all.len() == 11,
            value == le_value(all.skip(i as int)),
        decreases i,
    {
        proof {
            lemma_le_value_bound(all.skip(i as int));
            reveal_with_fuel(pow256, 12);
            assert(all.skip(i - 1).skip(1) =~= all.skip(i as int));
        }
        i = i - 1;
        value = value * 256 + bytes[i] as u128;
    }
    proof {
        assert(all.skip(0) =~= all);
        lemma_le_value_bound(all);
    }
    value
}

/// Packs a payload into the fixed block.
pub fn pack(payload: &SetupPayload) -> (r: Result<[u8; 11], Error>)
    ensures
        match packed(payload@) {
            Ok(view) => r matches Ok(bytes) && bytes@ == view,
            Err(e) => r == Err::<[u8; 11], Error>(e),
        },
{
    let vid = match payload.vendor_id {
        None => {
            return Err(Error::QrRequiresVidPid);
        },
        Some(vid) => vid,
    };
    let pid = match payload.product_id {
        None => {
            return Err(Error::QrRequiresVidPid);
        },
        Some(pid) => pid,
    };
    if let CommissioningFlow::Custom = payload.commissioning_flow {
        return Err(Error::CustomFlowUnsupported);
    }
    let above_capabilities: u128 = payload.discriminator.as_u16() as u128 + 0x1000
        * payload.passcode.as_u32() as u128;
    let above_flow: u128 = payload.discovery_capabilities.bits() as u128 + 0x100
        * above_capabilities;
    let above_product: u128 = payload.commissioning_flow.as_u8() as u128 + 4 * above_flow;
    let above_vendor: u128 = pid as u128 + 0x1_0000 * above_product;
    let above_version: u128 = vid as u128 + 0x1_0000 * above_vendor;
    let value: u128 = (payload.version % 8) as u128 + 8 * above_version;
    Ok(write_block(value))
}

/// Reads a payload from the fixed block.
pub fn unpack(bytes: &[u8; 11]) -> (r: Result<SetupPayload, Error>)
    ensures
        match unpacked(bytes@) {
            Ok(view) => r matches Ok(payload) && payload@ == view,
            Err(e) => r == Err::<SetupPayload, Error>(e),
        },
{
    let value = read_block(bytes);
    let above_version: u128 = value / 8;
    let above_vendor: u128 = above_version / 0x1_0000;
    let above_product: u128 = above_vendor / 0x1_0000;
    let above_flow: u128 = above_product / 4;
    let above_capabilities: u128 = above_flow / 0x100;
    let above_discriminator: u128 = above_capabilities / 0x1000;
    let flow = match CommissioningFlow::from_u8((above_product % 4) as u8) {
        Err(e) => {
            return Err(e);
        },
        Ok(flow) => flow,
    };
    let discriminator = match Discriminator::new((above_capabilities % 0x1000) as u16) {
        Err(e) => {
            return Err(e);
        },
        Ok(discriminator) => discriminator,
    };
    let passcode = match Passcode::new((above_discriminator % 0x800_0000) as u32) {
        Err(e) => {
            return Err(e);
        },
        Ok(passcode) => passcode,
    };
    Ok(
        SetupPayload {
            version: (value % 8) as u8,
            vendor_id: Some((above_version % 0x1_0000) as u16),
            product_id: Some((above_vendor % 0x1_0000) as u16),
            commissioning_flow: flow,
            discovery_capabilities: DiscoveryCapabilities::from_bits_retain(
                (above_flow % 0x100) as u8,
            ),
            discriminator,
            passcode,
        },
    )
}

/// The bytes of `MT:`, with which the text of a QR code starts.
pub open spec fn qr_prefix() -> Seq<u8> {
    seq![0x4Du8, 0x54u8, 0x3Au8]
}

/// The text of a QR code, or why there is none.
pub open spec fn qr_text(p: PayloadView) -> Result<Seq<char>, Error> {
    match packed(p) {
        Err(e) => Err(e),
        Ok(block) => Ok(ascii_text(qr_prefix() + encoded(block))),
    }
}

/// The payload in the text of a QR code, or why there is none.
pub open spec fn qr_payload(text: Seq<char>) -> Result<PayloadView, Error> {
    let bytes = encode_utf8(text);
    if bytes.len() < 3 || bytes.take(3) != qr_prefix() {
        Err(Error::MissingMtPrefix)
    } else {
        match decoded(bytes.skip(3), 0) {
            Err(e) => Err(e),
            Ok(block) => if block.len() < FIXED_BYTE_LEN {
                Err(
                    Error::QrPayloadWrongLength {
                        got: block.len() as usize,
                        need: FIXED_BYTE_LEN,
                    },
                )
            } else if block.len() > FIXED_BYTE_LEN {
                Err(Error::QrTrailingBytes { extra: (block.len() - FIXED_BYTE_LEN) as usize })
            } else {
                unpacked(block)
            },
        }
    }
}

/// Writes the text of a QR code.
pub fn encode_qr(payload: &SetupPayload) -> (r: Result<String, Error>)
    ensures
        match qr_text(payload@) {
            Ok(view) => r matches Ok(text) && text@ == view,
            Err(e) => r == Err::<String, Error>(e),
        },
{
    let block = match pack(payload) {
        Err(e) => {
            return Err(e);
        },
        Ok(block) => block,
    };
    let mut text = String::new();
    push_text(&mut text, "MT:");
    let body = encode(block.as_slice());
    push_text(&mut text, body.as_str());
    proof {
        reveal_strlit("MT:");
        assert("MT:"@ =~= ascii_text(qr_prefix()));
        assert(text@ =~= ascii_text(qr_prefix() + encoded(block@)));
    }
    Ok(text)
}

/// Reads the text of a QR code.
pub fn parse_qr(text: &str) -> (r: Result<SetupPayload, Error>)
    ensures
        match qr_payload(text@) {
            Ok(view) => r matches Ok(payload) && payload@ == view,
            Err(e) => r == Err::<SetupPayload, Error>(e),
        },
{
    let bytes = text.as_bytes();
    let total: usize = bytes.len();
    if total < 3 {
        return Err(Error::MissingMtPrefix);
    }
    if bytes[0] != 0x4D || bytes[1] != 0x54 || bytes[2] != 0x3A {
        proof {
            let head = bytes@.take(3);
            assert(head[0] == bytes@[0] && head[1] == bytes@[1] && head[2] == bytes@[2]);
            assert(qr_prefix()[0] == 0x4D && qr_prefix()[1] == 0x54 && qr_prefix()[2] == 0x3A);
        }
        return Err(Error::MissingMtPrefix);
    }
    proof {
        assert(bytes@.take(3) =~= qr_prefix());
    }
    let rest = slice_subrange(bytes, 3, total);
    proof {
        assert(rest@ =~= bytes@.skip(3));
    }
    let block = match decode_bytes(rest) {
        Err(e) => {
            return Err(e);
        },
        Ok(block) => block,
    };
    if block.len() < FIXED_BYTE_LEN {
        return Err(
            Error::QrPayloadWrongLength { got: block.len(), need: FIXED_BYTE_LEN },
        );
    }
    if block.len() > FIXED_BYTE_LEN {
        return Err(Error::QrTrailingBytes { extra: block.len() - FIXED_BYTE_LEN });
    }
    let mut fixed: [u8; 11] = [0; 11];
    let mut i: usize = 0;
    while i < 11
        invariant
            i <= 11,
            block@.len() == 11,
            fixed@.len() == 11,
            forall|j: int| 0 <= j < i ==> fixed@[j] == block@[j],
        decreases 11 - i,
    {
        fixed[i] = block[i];
        i = i + 1;
    }
    proof {
        assert(fixed@ =~= block@);
    }
    unpack(&fixed)
}

/// A payload that a QR code can carry.
pub open spec fn is_qr_payload(p: PayloadView) -> bool {
    &&& is_payload(p)
    &&& p.version < 8
    &&& p.vendor_id is Some
    &&& p.product_id is Some
    &&& p.commissioning_flow != CommissioningFlow::Custom
}

/// The fields of a payload are those that its number is made of.
proof fn lemma_block_number(p: PayloadView)
    requires
        is_qr_payload(p),
    ensures
        payload_of(block_number(p)) == Ok::<PayloadView, Error>(p),
        block_number(p) < pow256(11),
{
    assert(p.passcode < 0x800_0000);
    lemma_fields(
        p.version as nat,
        p.vendor_id->Some_0 as nat,
        p.product_id->Some_0 as nat,
        p.commissioning_flow.number() as nat,
        p.discovery_capabilities as nat,
        p.discriminator as nat,
        p.passcode as nat,
        0,
    );
    reveal_with_fuel(pow256, 12);
}

/// The fixed block holds the payload that was packed into it.
pub proof fn law_block_roundtrip(p: PayloadView)
    requires
        is_qr_payload(p),
    ensures
        packed(p) matches Ok(block) && block.len() == FIXED_BYTE_LEN && unpacked(block) == Ok::<
            PayloadView,
            Error,
        >(p),
{
    lemma_block_number(p);
    lemma_le_roundtrip(block_number(p), 11);
}

/// Reading a QR code gives back the payload that it was written for.
pub proof fn law_qr_roundtrip(p: PayloadView)
    requires
        is_qr_payload(p),
    ensures
        qr_text(p) matches Ok(text) && qr_payload(text) == Ok::<PayloadView, Error>(p),
{
    law_block_roundtrip(p);
    let block = packed(p)->Ok_0;
    law_base38_roundtrip(block, 0);
    let bytes = qr_prefix() + encoded(block);
    assert forall|i: int| 0 <= i < bytes.len() implies #[trigger] bytes[i] < 128 by {
        if i >= 3 {
            assert(bytes[i] == encoded(block)[i - 3]);
        }
    }
    lemma_text_bytes(bytes);
    assert(bytes.take(3) =~= qr_prefix());
    assert(bytes.skip(3) =~= encoded(block));
}

/// A byte below a number.
proof fn lemma_lowest_byte(b: nat, rest: nat, width: nat)
    requires
        b < 256,
    ensures
        le_bytes(b + 256 * rest, width + 1) == seq![b as u8] + le_bytes(rest, width),
{
    assert((b + 256 * rest) % 256 == b);
    assert((b + 256 * rest) / 256 == rest);
}

/// Where the fields of a payload stand in the fixed block, from the lowest bit of
/// the first byte on: version 3 bits, vendor 16, product 16, flow 2, capabilities
/// 8, discriminator 12, passcode 27, and 4 bits that are clear.
pub proof fn law_block_layout(p: PayloadView)
    requires
        is_qr_payload(p),
    ensures
        packed(p) matches Ok(b) && {
            let vendor = p.vendor_id->Some_0;
            let product = p.product_id->Some_0;
            let flow: int = if p.commissioning_flow == CommissioningFlow::UserIntent {
                1
            } else {
                0
            };
            let ways = p.discovery_capabilities;
            let discriminator = p.discriminator;
            let passcode = p.passcode;
            &&& b.len() == 11
            &&& b[0] == p.version + 8 * (vendor % 32)
            &&& b[1] == vendor / 32 % 256
            &&& b[2] == vendor / 8192 + 8 * (product % 32)
            &&& b[3] == product / 32 % 256
            &&& b[4] == product / 8192 + 8 * flow + 32 * (ways % 8)
            &&& b[5] == ways / 8 + 32 * (discriminator % 8)
            &&& b[6] == discriminator / 8 % 256
            &&& b[7] == discriminator / 2048 + 2 * (passcode % 128)
            &&& b[8] == passcode / 128 % 256
            &&& b[9] == passcode / 32768 % 256
            &&& b[10] == passcode / 8388608
        },
{
    let v = p.vendor_id->Some_0 as nat;
    let q = p.product_id->Some_0 as nat;
    let f = p.commissioning_flow.number() as nat;
    let c = p.discovery_capabilities as nat;
    let d = p.discriminator as nat;
    let s = p.passcode as nat;
    lemma_three_parts(v, 32, 256, 8192);
    lemma_three_parts(q, 32, 256, 8192);
    lemma_three_parts(d, 8, 256, 2048);
    lemma_three_parts(s, 128, 256, 32768);
    lemma_three_parts(s / 128, 256, 256, 65536);
    assert(s / 128 / 256 == s / 32768);
    assert(s / 128 / 65536 == s / 8388608);
    let b = seq![
        p.version as nat + 8 * (v % 32),
        v / 32 % 256,
        v / 8192 + 8 * (q % 32),
        q / 32 % 256,
        q / 8192 + 8 * f + 32 * (c % 8),
        c / 8 + 32 * (d % 8),
        d / 8 % 256,
        d / 2048 + 2 * (s % 128),
        s / 128 % 256,
        s / 32768 % 256,
        s / 8388608,
    ];
    lemma_regrouped(
        p.version as nat,
        (v % 32, v / 32 % 256, v / 8192),
        (q % 32, q / 32 % 256, q / 8192),
        f,
        (c % 8, c / 8),
        (d % 8, d / 8 % 256, d / 2048),
        (s % 128, s / 128 % 256, s / 32768 % 256, s / 8388608),
    );
    lemma_eleven_bytes(b);
}

/// A number in three parts.
proof fn lemma_three_parts(n: nat, low: nat, middle: nat, both: nat)
    by (nonlinear_arith)
    requires
        low > 0,
        middle > 0,
        both == low * middle,
    ensures
        n == n % low + low * (n / low % middle) + both * (n / both),
{
    assert(n == low * (n / low) + n % low);
    assert(n / low == middle * (n / low / middle) + n / low % middle);
    assert(n / low / middle == n / (low * middle));
    assert(low * (middle * (n / low / middle)) == (low * middle) * (n / low / middle));
}

/// The fields one above the other are the bytes one above the other.
proof fn lemma_regrouped(
    version: nat,
    v: (nat, nat, nat),
    q: (nat, nat, nat),
    f: nat,
    c: (nat, nat),
    d: (nat, nat, nat),
    s: (nat, nat, nat, nat),
)
    ensures
        ({
            let vendor = v.0 + 32 * v.1 + 8192 * v.2;
            let product = q.0 + 32 * q.1 + 8192 * q.2;
            let ways = c.0 + 8 * c.1;
            let discriminator = d.0 + 8 * d.1 + 2048 * d.2;
            let passcode = s.0 + 128 * s.1 + 32768 * s.2 + 8388608 * s.3;
            version + 8 * (vendor + 0x1_0000 * (product + 0x1_0000 * (f + 4 * (ways + 0x100 * (
            discriminator + 0x1000 * passcode)))))
        }) == eleven(
            seq![
                version + 8 * v.0,
                v.1,
                v.2 + 8 * q.0,
                q.1,
                q.2 + 8 * f + 32 * c.0,
                c.1 + 32 * d.0,
                d.1,
                d.2 + 2 * s.0,
                s.1,
                s.2,
                s.3,
            ],
        ),
{
}

/// The number of eleven bytes, the lowest one first.
spec fn eleven(b: Seq<nat>) -> nat {
    b[0] + 256 * (b[1] + 256 * (b[2] + 256 * (b[3] + 256 * (b[4] + 256 * (b[5] + 256 * (b[6] + 256
        * (b[7] + 256 * (b[8] + 256 * (b[9] + 256 * b[10])))))))))
}

/// The bytes of the number of eleven bytes.
proof fn lemma_eleven_bytes(b: Seq<nat>)
    requires
        b.len() == 11,
        forall|i: int| 0 <= i < 11 ==> #[trigger] b[i] < 256,
    ensures
        le_bytes(eleven(b), 11).len() == 11,
        forall|i: int| 0 <= i < 11 ==> le_bytes(eleven(b), 11)[i] == #[trigger] b[i],
{
    let n9 = b[9] + 256 * b[10];
    let n8 = b[8] + 256 * n9;
    let n7 = b[7] + 256 * n8;
    let n6 = b[6] + 256 * n7;
    let n5 = b[5] + 256 * n6;
    let n4 = b[4] + 256 * n5;
    let n3 = b[3] + 256 * n4;
    let n2 = b[2] + 256 * n3;
    let n1 = b[1] + 256 * n2;
    lemma_lowest_byte(b[0], n1, 10);
    lemma_lowest_byte(b[1], n2, 9);
    lemma_lowest_byte(b[2], n3, 8);
    lemma_lowest_byte(b[3], n4, 7);
    lemma_lowest_byte(b[4], n5, 6);
    lemma_lowest_byte(b[5], n6, 5);
    lemma_lowest_byte(b[6], n7, 4);
    lemma_lowest_byte(b[7], n8, 3);
    lemma_lowest_byte(b[8], n9, 2);
    lemma_lowest_byte(b[9], b[10], 1);
    lemma_lowest_byte(b[10], 0, 0);
    lemma_le_bytes_len(eleven(b), 11);
    lemma_le_bytes_len(n1, 10);
    lemma_le_bytes_len(n2, 9);
    lemma_le_bytes_len(n3, 8);
    lemma_le_bytes_len(n4, 7);
    lemma_le_bytes_len(n5, 6);
    lemma_le_bytes_len(n6, 5);
    lemma_le_bytes_len(n7, 4);
    lemma_le_bytes_len(n8, 3);
    lemma_le_bytes_len(n9, 2);
    lemma_le_bytes_len(b[10], 1);
}

/// What the bytes of a fixed block stand for: the fields in the same places, the
/// highest 4 bits ignored.
pub proof fn law_block_is_read(b: Seq<u8>)
    requires
        b.len() == 11,
    ensures
        unpacked(b) matches Ok(p) ==> {
            &&& p.version == b[0] % 8
            &&& p.vendor_id is Some
            &&& p.vendor_id->Some_0 == b[0] / 8 + 32 * b[1] + 8192 * (b[2] % 8)
            &&& p.product_id is Some
            &&& p.product_id->Some_0 == b[2] / 8 + 32 * b[3] + 8192 * (b[4] % 8)
            &&& b[4] / 8 % 4 == (match p.commissioning_flow {
                CommissioningFlow::Standard => 0int,
                CommissioningFlow::UserIntent => 1int,
                CommissioningFlow::Custom => 2int,
            })
            &&& p.discovery_capabilities == b[4] / 32 + 8 * (b[5] % 32)
            &&& p.discriminator == b[5] / 32 + 8 * b[6] + 2048 * (b[7] % 2)
            &&& p.passcode == b[7] / 2 + 128 * b[8] + 32768 * b[9] + 8388608 * (b[10] % 16)
        },
        b[4] / 8 % 4 == 3 ==> unpacked(b) == Err::<PayloadView, Error>(
            Error::CommissioningFlowReserved(3),
        ),
        b[4] / 8 % 4 != 3 ==> (unpacked(b) is Ok <==> passcode_fault(
            (b[7] / 2 + 128 * b[8] + 32768 * b[9] + 8388608 * (b[10] % 16)) as u32,
        ) is None),
{
    let v = (b[0] / 8 + 32 * b[1] + 8192 * (b[2] % 8)) as nat;
    let q = (b[2] / 8 + 32 * b[3] + 8192 * (b[4] % 8)) as nat;
    let f = (b[4] / 8 % 4) as nat;
    let c = (b[4] / 32 + 8 * (b[5] % 32)) as nat;
    let d = (b[5] / 32 + 8 * b[6] + 2048 * (b[7] % 2)) as nat;
    let s = (b[7] / 2 + 128 * b[8] + 32768 * b[9] + 8388608 * (b[10] % 16)) as nat;
    lemma_block_fields(b);
    lemma_fields((b[0] % 8) as nat, v, q, f, c, d, s, (b[10] / 16) as nat);
}

/// The number of a fixed block, field by field.
proof fn lemma_block_fields(b: Seq<u8>)
    requires
        b.len() == 11,
    ensures
        ({
            let v = (b[0] / 8 + 32 * b[1] + 8192 * (b[2] % 8)) as nat;
            let q = (b[2] / 8 + 32 * b[3] + 8192 * (b[4] % 8)) as nat;
            let f = (b[4] / 8 % 4) as nat;
            let c = (b[4] / 32 + 8 * (b[5] % 32)) as nat;
            let d = (b[5] / 32 + 8 * b[6] + 2048 * (b[7] % 2)) as nat;
            let s = (b[7] / 2 + 128 * b[8] + 32768 * b[9] + 8388608 * (b[10] % 16)) as nat;
            le_value(b) == (b[0] % 8) as nat + 8 * (v + 0x1_0000 * (q + 0x1_0000 * (f + 4 * (c
                + 0x100 * (d + 0x1000 * (s + 0x800_0000 * (b[10] / 16) as nat))))))
        }),
{
    let low = (
        (b[0] % 8) as nat,
        (b[2] % 8) as nat,
        (b[4] % 8) as nat,
        (b[5] % 32) as nat,
        (b[7] % 2) as nat,
        (b[10] % 16) as nat,
    );
    let high = (
        (b[0] / 8) as nat,
        (b[2] / 8) as nat,
        (b[4] / 32) as nat,
        (b[5] / 32) as nat,
        (b[7] / 2) as nat,
        (b[10] / 16) as nat,
    );
    let f = (b[4] / 8 % 4) as nat;
    assert(low.0 + 8 * high.0 == b[0]);
    assert(low.1 + 8 * high.1 == b[2]);
    assert(low.2 + 8 * f + 32 * high.2 == b[4]);
    assert(low.3 + 32 * high.3 == b[5]);
    assert(low.4 + 2 * high.4 == b[7]);
    assert(low.5 + 16 * high.5 == b[10]);
    lemma_number_of_bytes(b);
    lemma_regrouped(
        low.0,
        (high.0, b[1] as nat, low.1),
        (high.1, b[3] as nat, low.2),
        f,
        (high.2, low.3),
        (high.3, b[6] as nat, low.4),
        (high.4, b[8] as nat, b[9] as nat, low.5 + 16 * high.5),
    );
}

/// Bytes with the lowest one first.
proof fn lemma_number_of_bytes(b: Seq<u8>)
    requires
        b.len() == 11,
    ensures
        le_value(b) == eleven(
            seq![
                b[0] as nat,
                b[1] as nat,
                b[2] as nat,
                b[3] as nat,
                b[4] as nat,
                b[5] as nat,
                b[6] as nat,
                b[7] as nat,
                b[8] as nat,
                b[9] as nat,
                b[10] as nat,
            ],
        ),
{
    reveal_with_fuel(le_value, 12);
}

/// The fields that are taken out of a number are those that it is made of.
proof fn lemma_fields(
    version: nat,
    v: nat,
    q: nat,
    f: nat,
    c: nat,
    d: nat,
    s: nat,
    above: nat,
)
    requires
        version < 8,
        v < 0x1_0000,
        q < 0x1_0000,
        f < 4,
        c < 0x100,
        d < 0x1000,
        s < 0x800_0000,
    ensures
        ({
            let n = version + 8 * (v + 0x1_0000 * (q + 0x1_0000 * (f + 4 * (c + 0x100 * (d + 0x1000
                * (s + 0x800_0000 * above))))));
            &&& n % 8 == version
            &&& n / 8 % 0x1_0000 == v
            &&& n / 8 / 0x1_0000 % 0x1_0000 == q
            &&& n / 8 / 0x1_0000 / 0x1_0000 % 4 == f
            &&& n / 8 / 0x1_0000 / 0x1_0000 / 4 % 0x100 == c
            &&& n / 8 / 0x1_0000 / 0x1_0000 / 4 / 0x100 % 0x1000 == d
            &&& n / 8 / 0x1_0000 / 0x1_0000 / 4 / 0x100 / 0x1000 % 0x800_0000 == s
        }),
{
    let n6 = s + 0x800_0000 * above;
    let n5 = d + 0x1000 * n6;
    let n4 = c + 0x100 * n5;
    let n3 = f + 4 * n4;
    let n2 = q + 0x1_0000 * n3;
    let n1 = v + 0x1_0000 * n2;
    let n = version + 8 * n1;
    assert(n % 8 == version && n / 8 == n1);
    assert(n1 % 0x1_0000 == v && n1 / 0x1_0000 == n2);
    assert(n2 % 0x1_0000 == q && n2 / 0x1_0000 == n3);
    assert(n3 % 4 == f && n3 / 4 == n4);
    assert(n4 % 0x100 == c && n4 / 0x100 == n5);
    assert(n5 % 0x1000 == d && n5 / 0x1000 == n6);
    assert(n6 % 0x800_0000 == s);
}

/// A payload without vendor or product, or with a flow of its own, is not written;
/// every other one is.
pub proof fn law_what_is_written(p: PayloadView)
    ensures
        packed(p) is Ok <==> p.vendor_id is Some && p.product_id is Some && !(
        p.commissioning_flow is Custom),
        p.vendor_id is None || p.product_id is None ==> packed(p) == Err::<Seq<u8>, Error>(
            Error::QrRequiresVidPid,
        ),
{
}

/// The text of a QR code is `MT:` and 19 more characters.
pub proof fn law_qr_text_form(p: PayloadView)
    ensures
        qr_text(p) matches Ok(text) ==> {
            &&& text.len() == 22
            &&& text[0] == 'M'
            &&& text[1] == 'T'
            &&& text[2] == ':'
        },
{
    if let Ok(block) = packed(p) {
        lemma_le_bytes_len(block_number(p), 11);
        law_base38_length(block);
    }
}

/// A text that does not start with `MT:` is refused for it.
pub proof fn law_prefix_is_needed(text: Seq<char>)
    requires
        encode_utf8(text).len() < 3 || encode_utf8(text)[0] != 0x4D || encode_utf8(text)[1] != 0x54
            || encode_utf8(text)[2] != 0x3A,
    ensures
        qr_payload(text) == Err::<PayloadView, Error>(Error::MissingMtPrefix),
{
    let bytes = encode_utf8(text);
    if bytes.len() >= 3 {
        assert(bytes.take(3)[0] == bytes[0]);
        assert(bytes.take(3)[1] == bytes[1]);
        assert(bytes.take(3)[2] == bytes[2]);
        assert(qr_prefix()[0] == 0x4D && qr_prefix()[1] == 0x54 && qr_prefix()[2] == 0x3A);
    }
}

} // verus!
