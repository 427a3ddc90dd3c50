//! What reading and writing TLV have to do with each other.

use crate::tlv::{
    control, decode_all, decode_front, encodable, encode_all, encode_item, field_width,
    int_selector, le_bytes, le_value, payload_value, pow256, scalar_bytes, scalar_kind,
    signed_le_value, start_kind, string_payload, tag_bytes, tag_form, tag_value, tag_width,
    uint_selector, Front, Item, Payload, Scalar, Stream, Tag,
};
use vstd::prelude::*;
use vstd::utf8::{
    encode_utf8, encode_utf8_decode_utf8, encode_utf8_valid_utf8,
};

verus! {

/// The powers of 256 that fields of the encoding need.
pub proof fn lemma_pow256_values()
    ensures
        pow256(0) == 1,
        pow256(1) == 0x100,
        pow256(2) == 0x1_0000,
        pow256(4) == 0x1_0000_0000,
        pow256(8) == 0x1_0000_0000_0000_0000,
{
    reveal_with_fuel(pow256, 9);
}

/// A little-endian number is smaller than the power of 256 of its length.
pub proof fn lemma_le_value_bound(bytes: Seq<u8>)
    ensures
        le_value(bytes) < pow256(bytes.len()),
    decreases bytes.len(),
{
    if bytes.len() > 0 {
        lemma_le_value_bound(bytes.skip(1));
        assert(bytes.skip(1).len() == bytes.len() - 1);
    }
}

/// Writing a number little-endian gives as many bytes as asked for.
pub proof fn lemma_le_bytes_len(value: nat, width: nat)
    ensures
        le_bytes(value, width).len() == width,
    decreases width,
{
    if width > 0 {
        lemma_le_bytes_len(value / 256, (width - 1) as nat);
    }
}

/// A number that fits is read back from the bytes it was written to.
pub proof fn lemma_le_roundtrip(value: nat, width: nat)
    requires
        value < pow256(width),
    ensures
        le_value(le_bytes(value, width)) == value,
        le_bytes(value, width).len() == width,
    decreases width,
{
    if width > 0 {
        let tail = le_bytes(value / 256, (width - 1) as nat);
        assert(value / 256 < pow256((width - 1) as nat)) by {
            assert(value < 256 * pow256((width - 1) as nat));
        }
        lemma_le_roundtrip(value / 256, (width - 1) as nat);
        let all = le_bytes(value, width);
        assert(all.skip(1) =~= tail);
        assert(all[0] == (value % 256) as u8);
    }
}

/// A tag is read back from the bytes it was written to.
pub proof fn lemma_tag_roundtrip(tag: Tag)
    ensures
        0 <= tag_form(tag) < 8,
        tag_bytes(tag).len() == tag_width(tag_form(tag)),
        tag_value(tag_form(tag), tag_bytes(tag)) == tag,
{
    lemma_pow256_values();
    let bytes = tag_bytes(tag);
    match tag {
        Tag::Anonymous => {},
        Tag::Context(t) => lemma_le_roundtrip(t as nat, 1),
        Tag::CommonProfile2(t) => lemma_le_roundtrip(t as nat, 2),
        Tag::CommonProfile4(t) => lemma_le_roundtrip(t as nat, 4),
        Tag::ImplicitProfile2(t) => lemma_le_roundtrip(t as nat, 2),
        Tag::ImplicitProfile4(t) => lemma_le_roundtrip(t as nat, 4),
        Tag::FullyQualified6 { vendor, profile, tag } => {
            lemma_le_roundtrip(vendor as nat, 2);
            lemma_le_roundtrip(profile as nat, 2);
            lemma_le_roundtrip(tag as nat, 2);
            assert(bytes.subrange(0, 2) =~= le_bytes(vendor as nat, 2));
            assert(bytes.subrange(2, 4) =~= le_bytes(profile as nat, 2));
            assert(bytes.subrange(4, 6) =~= le_bytes(tag as nat, 2));
        },
        Tag::FullyQualified8 { vendor, profile, tag } => {
            lemma_le_roundtrip(vendor as nat, 2);
            lemma_le_roundtrip(profile as nat, 2);
            lemma_le_roundtrip(tag as nat, 4);
            assert(bytes.subrange(0, 2) =~= le_bytes(vendor as nat, 2));
            assert(bytes.subrange(2, 4) =~= le_bytes(profile as nat, 2));
            assert(bytes.subrange(4, 8) =~= le_bytes(tag as nat, 4));
        },
    }
}

/// A string payload is read back, whatever stands behind it.
proof fn lemma_string_roundtrip(octets: Seq<u8>, rest: Seq<u8>)
    requires
        octets.len() <= u64::MAX,
    ensures
        ({
            let width = field_width(uint_selector(octets.len()));
            let written = le_bytes(octets.len(), width) + octets;
            &&& written.len() == width + octets.len()
            &&& string_payload(written + rest, width) == Some(octets)
        }),
{
    lemma_pow256_values();
    let width = field_width(uint_selector(octets.len()));
    lemma_le_roundtrip(octets.len(), width);
    let written = le_bytes(octets.len(), width) + octets;
    let all = written + rest;
    assert(all.take(width as int) =~= le_bytes(octets.len(), width));
    assert(all.subrange(width as int, (width + octets.len()) as int) =~= octets);
}

proof fn lemma_int_payload(v: i64, rest: Seq<u8>)
    ensures
        ({
            let bytes = scalar_bytes(Scalar::Int(v));
            payload_value(int_selector(v as int), bytes + rest) == Payload::Holds(
                Scalar::Int(v),
                bytes.len(),
            )
        }),
{
    lemma_pow256_values();
    let selector = int_selector(v as int);
    let width = field_width(selector);
    let raw = (if v >= 0 {
        v as int
    } else {
        v as int + pow256(width)
    }) as nat;
    assert(raw < pow256(width));
    lemma_le_roundtrip(raw, width);
    let bytes = le_bytes(raw, width);
    assert((bytes + rest).take(width as int) =~= bytes);
    assert(selector % 4 == selector);
    assert(signed_le_value(bytes) == v);
}

proof fn lemma_uint_payload(v: u64, rest: Seq<u8>)
    ensures
        ({
            let bytes = scalar_bytes(Scalar::Uint(v));
            payload_value(4 + uint_selector(v as nat), bytes + rest) == Payload::Holds(
                Scalar::Uint(v),
                bytes.len(),
            )
        }),
{
    lemma_pow256_values();
    let selector = uint_selector(v as nat);
    let width = field_width(selector);
    lemma_le_roundtrip(v as nat, width);
    let bytes = le_bytes(v as nat, width);
    assert((bytes + rest).take(width as int) =~= bytes);
    assert((4 + selector) % 4 == selector);
}

proof fn lemma_text_payload(text: Seq<char>, rest: Seq<u8>)
    requires
        encode_utf8(text).len() <= u64::MAX,
    ensures
        ({
            let bytes = scalar_bytes(Scalar::Utf8(text));
            payload_value(12 + uint_selector(encode_utf8(text).len()), bytes + rest)
                == Payload::Holds(Scalar::Utf8(text), bytes.len())
        }),
{
    let octets = encode_utf8(text);
    encode_utf8_valid_utf8(text);
    encode_utf8_decode_utf8(text);
    lemma_string_roundtrip(octets, rest);
    let selector = uint_selector(octets.len());
    assert((12 + selector) % 4 == selector);
}

proof fn lemma_octets_payload(octets: Seq<u8>, rest: Seq<u8>)
    requires
        octets.len() <= u64::MAX,
    ensures
        ({
            let bytes = scalar_bytes(Scalar::Bytes(octets));
            payload_value(16 + uint_selector(octets.len()), bytes + rest) == Payload::Holds(
                Scalar::Bytes(octets),
                bytes.len(),
            )
        }),
{
    lemma_string_roundtrip(octets, rest);
    let selector = uint_selector(octets.len());
    assert((16 + selector) % 4 == selector);
}

/// A scalar payload is read back, whatever stands behind it.
proof fn lemma_payload_roundtrip(value: Scalar, rest: Seq<u8>)
    requires
        encodable(Item::Scalar { tag: Tag::Anonymous, value }),
    ensures
        0 <= scalar_kind(value) <= 20,
        payload_value(scalar_kind(value), scalar_bytes(value) + rest) == Payload::Holds(
            value,
            scalar_bytes(value).len(),
        ),
{
    match value {
        Scalar::Int(v) => lemma_int_payload(v, rest),
        Scalar::Uint(v) => lemma_uint_payload(v, rest),
        Scalar::Float32Bits(v) => {
            lemma_pow256_values();
            lemma_le_roundtrip(v as nat, 4);
            let bytes = le_bytes(v as nat, 4);
            assert((bytes + rest).take(4) =~= bytes);
        },
        Scalar::Float64Bits(v) => {
            lemma_pow256_values();
            lemma_le_roundtrip(v as nat, 8);
            let bytes = le_bytes(v as nat, 8);
            assert((bytes + rest).take(8) =~= bytes);
        },
        Scalar::Utf8(text) => lemma_text_payload(text, rest),
        Scalar::Bytes(octets) => lemma_octets_payload(octets, rest),
        _ => {},
    }
}

/// The control octet gives back the tag form and the element type.
proof fn lemma_control(tag: Tag, kind: int)
    requires
        0 <= kind < 32,
    ensures
        control(tag, kind) as int / 32 == tag_form(tag),
        control(tag, kind) as int % 32 == kind,
{
}

/// What was written is read back: the bytes of an item, whatever stands behind
/// them, start with that item and nothing else.
pub proof fn law_item_roundtrip(item: Item, rest: Seq<u8>)
    requires
        encodable(item),
    ensures
        decode_front(encode_item(item) + rest) == Front::Element(item, encode_item(item).len()),
        encode_item(item).len() > 0,
{
    let all = encode_item(item) + rest;
    match item {
        Item::Scalar { tag, value } => {
            lemma_tag_roundtrip(tag);
            lemma_payload_roundtrip(value, rest);
            lemma_control(tag, scalar_kind(value));
            let head = 1 + tag_width(tag_form(tag));
            assert(all[0] == control(tag, scalar_kind(value)));
            assert(all.subrange(1, head as int) =~= tag_bytes(tag));
            assert(all.skip(head as int) =~= scalar_bytes(value) + rest);
        },
        Item::Start { tag, kind } => {
            lemma_tag_roundtrip(tag);
            lemma_control(tag, start_kind(kind));
            let head = 1 + tag_width(tag_form(tag));
            assert(all[0] == control(tag, start_kind(kind)));
            assert(all.subrange(1, head as int) =~= tag_bytes(tag));
        },
        Item::End => {
            assert(all[0] == 0x18);
        },
    }
}

/// Reading an item leaves the reading of what stands behind it.
proof fn lemma_decode_step(item: Item, rest: Seq<u8>)
    requires
        encodable(item),
    ensures
        decode_all(encode_item(item) + rest) == (Stream {
            items: seq![item] + decode_all(rest).items,
            fault: decode_all(rest).fault,
        }),
{
    law_item_roundtrip(item, rest);
    let all = encode_item(item) + rest;
    assert(all.skip(encode_item(item).len() as int) =~= rest);
}

/// The items of a written stream come first when it is read, whatever stands
/// behind it.
#[verifier::spinoff_prover]
#[verifier::rlimit(40)]
pub proof fn law_stream_prefix(items: Seq<Item>, rest: Seq<u8>)
    requires
        forall|i: int| 0 <= i < items.len() ==> encodable(#[trigger] items[i]),
    ensures
        decode_all(encode_all(items) + rest) == (Stream {
            items: items + decode_all(rest).items,
            fault: decode_all(rest).fault,
        }),
    decreases items.len(),
{
    if items.len() == 0 {
        assert(encode_all(items) + rest =~= rest);
        assert(items + decode_all(rest).items =~= decode_all(rest).items);
    } else {
        let last = items.last();
        let behind = encode_item(last) + rest;
        assert(encode_all(items) + rest =~= encode_all(items.drop_last()) + behind);
        law_stream_prefix(items.drop_last(), behind);
        lemma_decode_step(last, rest);
        assert(items.drop_last() + (seq![last] + decode_all(rest).items) =~= items + decode_all(
            rest,
        ).items);
    }
}

/// Reading undoes writing: the bytes of a sequence of items hold exactly those
/// items.
pub proof fn law_stream_roundtrip(items: Seq<Item>)
    requires
        forall|i: int| 0 <= i < items.len() ==> encodable(#[trigger] items[i]),
    ensures
        decode_all(encode_all(items)) == (Stream { items, fault: None }),
{
    law_stream_prefix(items, Seq::empty());
    assert(encode_all(items) + Seq::<u8>::empty() =~= encode_all(items));
    assert(items + decode_all(Seq::empty()).items =~= items);
}

/// The bytes of a single item.
pub proof fn lemma_encode_one(item: Item)
    ensures
        encode_all(seq![item]) == encode_item(item),
{
    assert(seq![item].drop_last() =~= Seq::<Item>::empty());
    assert(encode_all(Seq::<Item>::empty()) =~= Seq::<u8>::empty());
    assert(encode_all(seq![item]) =~= encode_item(item));
}

/// The bytes of two sequences, one behind the other.
pub proof fn lemma_encode_concat(a: Seq<Item>, b: Seq<Item>)
    ensures
        encode_all(a + b) == encode_all(a) + encode_all(b),
    decreases b.len(),
{
    if b.len() == 0 {
        assert(a + b =~= a);
        assert(encode_all(a) + encode_all(b) =~= encode_all(a));
    } else {
        lemma_encode_concat(a, b.drop_last());
        assert((a + b).drop_last() =~= a + b.drop_last());
        assert(encode_all(a + b) =~= encode_all(a) + encode_all(b));
    }
}

/// Different sequences of items are written as different bytes.
pub proof fn law_encoding_injective(a: Seq<Item>, b: Seq<Item>)
    requires
        forall|i: int| 0 <= i < a.len() ==> encodable(#[trigger] a[i]),
        forall|i: int| 0 <= i < b.len() ==> encodable(#[trigger] b[i]),
        encode_all(a) == encode_all(b),
    ensures
        a == b,
{
    law_stream_roundtrip(a);
    law_stream_roundtrip(b);
}

} // verus!
