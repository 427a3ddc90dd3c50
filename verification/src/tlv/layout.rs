//! Which bytes the items of a stream are, byte by byte.

use crate::tlv::laws::{
    lemma_le_bytes_len, lemma_le_roundtrip, lemma_pow256_values,
    lemma_tag_roundtrip,
};
use crate::tlv::members::{
    bytes_at, bytes_field, int_field, lemma_field_witness, structure, uint_at,
    uint_field, utf8_field,
};
use crate::tlv::{
    decode_front, encodable, encode_all, encode_item, field_width, int_selector, le_bytes, le_value,
    payload_value, pow256, scalar_bytes, scalar_kind, start_kind, string_payload, tag_bytes,
    tag_form, tag_width, uint_selector, ContainerKind, Front, Item, Payload, Scalar, Tag, TlvError,
};
use vstd::prelude::*;
use vstd::utf8::encode_utf8;

verus! {

/// A number in two bytes, the lower one first.
proof fn lemma_two(v: nat)
    requires
        v < 0x1_0000,
    ensures
        le_bytes(v, 2) == seq![(v % 0x100) as u8, (v / 0x100) as u8],
{
    reveal_with_fuel(le_bytes, 3);
    assert(le_bytes(v, 2) =~= seq![(v % 0x100) as u8, (v / 0x100) as u8]);
}

/// A number in four bytes, the lower ones first.
proof fn lemma_four(v: nat)
    requires
        v < 0x1_0000_0000,
    ensures
        le_bytes(v, 4) == seq![
            (v % 0x100) as u8,
            (v / 0x100 % 0x100) as u8,
            (v / 0x1_0000 % 0x100) as u8,
            (v / 0x100_0000) as u8,
        ],
{
    reveal_with_fuel(le_bytes, 5);
    assert(le_bytes(v, 4) =~= seq![
        (v % 0x100) as u8,
        (v / 0x100 % 0x100) as u8,
        (v / 0x1_0000 % 0x100) as u8,
        (v / 0x100_0000) as u8,
    ]);
}

/// What a byte string stands for with the lower bytes first.
proof fn lemma_value(bytes: Seq<u8>)
    ensures
        bytes.len() == 1 ==> le_value(bytes) == bytes[0],
        bytes.len() == 2 ==> le_value(bytes) == bytes[0] + 0x100 * bytes[1],
        bytes.len() == 4 ==> le_value(bytes) == bytes[0] + 0x100 * bytes[1] + 0x1_0000 * bytes[2]
            + 0x100_0000 * bytes[3],
        bytes.len() == 8 ==> le_value(bytes) == bytes[0] + 0x100 * bytes[1] + 0x1_0000 * bytes[2]
            + 0x100_0000 * bytes[3] + 0x1_0000_0000 * bytes[4] + 0x100_0000_0000 * bytes[5]
            + 0x1_0000_0000_0000 * bytes[6] + 0x100_0000_0000_0000 * bytes[7],
{
    reveal_with_fuel(le_value, 9);
}

/// Numbers are written with the lower bytes first, and as many bytes as the field
/// has.
pub proof fn law_numbers_are_little_endian(v: nat)
    ensures
        v < 0x100 ==> le_bytes(v, 1) == seq![v as u8],
        v < 0x1_0000 ==> le_bytes(v, 2) == seq![(v % 0x100) as u8, (v / 0x100) as u8],
        v < 0x1_0000_0000 ==> le_bytes(v, 4) == seq![
            (v % 0x100) as u8,
            (v / 0x100 % 0x100) as u8,
            (v / 0x1_0000 % 0x100) as u8,
            (v / 0x100_0000) as u8,
        ],
        v < 0x1_0000_0000_0000_0000 ==> {
            let b = le_bytes(v, 8);
            &&& b.len() == 8
            &&& v == b[0] + 0x100 * b[1] + 0x1_0000 * b[2] + 0x100_0000 * b[3] + 0x1_0000_0000
                * b[4] + 0x100_0000_0000 * b[5] + 0x1_0000_0000_0000 * b[6]
                + 0x100_0000_0000_0000 * b[7]
        },
{
    if v < 0x1_0000 {
        lemma_two(v);
    }
    if v < 0x1_0000_0000 {
        lemma_four(v);
    }
    if v < 0x100 {
        reveal_with_fuel(le_bytes, 2);
        assert(le_bytes(v, 1) =~= seq![v as u8]);
    }
    if v < 0x1_0000_0000_0000_0000 {
        lemma_pow256_values();
        lemma_le_roundtrip(v, 8);
        lemma_value(le_bytes(v, 8));
    }
}

/// The upper three bits of the control octet and the bytes behind it say which
/// tag an element has.
pub proof fn law_tag_layout(tag: Tag)
    ensures
        match tag {
            Tag::Anonymous => tag_form(tag) == 0 && tag_bytes(tag) == Seq::<u8>::empty(),
            Tag::Context(t) => tag_form(tag) == 1 && tag_bytes(tag) == seq![t],
            Tag::CommonProfile2(t) => tag_form(tag) == 2 && tag_bytes(tag) == seq![
                (t as int % 0x100) as u8,
                (t as int / 0x100) as u8,
            ],
            Tag::CommonProfile4(t) => tag_form(tag) == 3 && tag_bytes(tag) == seq![
                (t as int % 0x100) as u8,
                (t as int / 0x100 % 0x100) as u8,
                (t as int / 0x1_0000 % 0x100) as u8,
                (t as int / 0x100_0000) as u8,
            ],
            Tag::ImplicitProfile2(t) => tag_form(tag) == 4 && tag_bytes(tag) == seq![
                (t as int % 0x100) as u8,
                (t as int / 0x100) as u8,
            ],
            Tag::ImplicitProfile4(t) => tag_form(tag) == 5 && tag_bytes(tag) == seq![
                (t as int % 0x100) as u8,
                (t as int / 0x100 % 0x100) as u8,
                (t as int / 0x1_0000 % 0x100) as u8,
                (t as int / 0x100_0000) as u8,
            ],
            Tag::FullyQualified6 { vendor, profile, tag: t } => tag_form(tag) == 6 && tag_bytes(tag)
                == seq![
                (vendor as int % 0x100) as u8,
                (vendor as int / 0x100) as u8,
                (profile as int % 0x100) as u8,
                (profile as int / 0x100) as u8,
                (t as int % 0x100) as u8,
                (t as int / 0x100) as u8,
            ],
            Tag::FullyQualified8 { vendor, profile, tag: t } => tag_form(tag) == 7 && tag_bytes(tag)
                == seq![
                (vendor as int % 0x100) as u8,
                (vendor as int / 0x100) as u8,
                (profile as int % 0x100) as u8,
                (profile as int / 0x100) as u8,
                (t as int % 0x100) as u8,
                (t as int / 0x100 % 0x100) as u8,
                (t as int / 0x1_0000 % 0x100) as u8,
                (t as int / 0x100_0000) as u8,
            ],
        },
{
    match tag {
        Tag::Anonymous => {},
        Tag::Context(t) => {
            law_numbers_are_little_endian(t as nat);
        },
        Tag::CommonProfile2(t) => lemma_two(t as nat),
        Tag::ImplicitProfile2(t) => lemma_two(t as nat),
        Tag::CommonProfile4(t) => lemma_four(t as nat),
        Tag::ImplicitProfile4(t) => lemma_four(t as nat),
        Tag::FullyQualified6 { vendor, profile, tag: t } => {
            lemma_two(vendor as nat);
            lemma_two(profile as nat);
            lemma_two(t as nat);
        },
        Tag::FullyQualified8 { vendor, profile, tag: t } => {
            lemma_two(vendor as nat);
            lemma_two(profile as nat);
            lemma_four(t as nat);
        },
    }
}

/// An unsigned integer under a context tag is 0x24, 0x25, 0x26 or 0x27, the tag,
/// and the number in the fewest of one, two, four or eight bytes.
pub proof fn law_uint_layout(t: u8, v: u64)
    ensures
        ({
            let bytes = encode_item(Item::Scalar { tag: Tag::Context(t), value: Scalar::Uint(v) });
            &&& bytes[1] == t
            &&& v < 0x100 ==> bytes == seq![0x24u8, t, v as u8]
            &&& 0x100 <= v < 0x1_0000 ==> bytes == seq![
                0x25u8,
                t,
                (v as int % 0x100) as u8,
                (v as int / 0x100) as u8,
            ]
            &&& 0x1_0000 <= v < 0x1_0000_0000 ==> bytes == seq![
                0x26u8,
                t,
                (v as int % 0x100) as u8,
                (v as int / 0x100 % 0x100) as u8,
                (v as int / 0x1_0000 % 0x100) as u8,
                (v as int / 0x100_0000) as u8,
            ]
            &&& 0x1_0000_0000 <= v ==> bytes.len() == 10 && bytes[0] == 0x27 && v == bytes[2]
                + 0x100 * bytes[3] + 0x1_0000 * bytes[4] + 0x100_0000 * bytes[5] + 0x1_0000_0000
                * bytes[6] + 0x100_0000_0000 * bytes[7] + 0x1_0000_0000_0000 * bytes[8]
                + 0x100_0000_0000_0000 * bytes[9]
        }),
{
    law_tag_layout(Tag::Context(t));
    law_numbers_are_little_endian(v as nat);
    let item = Item::Scalar { tag: Tag::Context(t), value: Scalar::Uint(v) };
    let bytes = encode_item(item);
    if v < 0x100 {
        assert(bytes =~= seq![0x24u8, t, v as u8]);
    } else if v < 0x1_0000 {
        assert(bytes =~= seq![0x25u8, t, (v as int % 0x100) as u8, (v as int / 0x100) as u8]);
    } else if v < 0x1_0000_0000 {
        assert(bytes =~= seq![
            0x26u8,
            t,
            (v as int % 0x100) as u8,
            (v as int / 0x100 % 0x100) as u8,
            (v as int / 0x1_0000 % 0x100) as u8,
            (v as int / 0x100_0000) as u8,
        ]);
    }
}

/// Booleans and null are control octets with nothing behind the tag: 8 for false,
/// 9 for true and 20 for null, with 32 more for a context tag.
pub proof fn law_constant_layout(t: u8)
    ensures
        encode_item(Item::Scalar { tag: Tag::Context(t), value: Scalar::Bool(false) }) == seq![
            0x28u8,
            t,
        ],
        encode_item(Item::Scalar { tag: Tag::Context(t), value: Scalar::Bool(true) }) == seq![
            0x29u8,
            t,
        ],
        encode_item(Item::Scalar { tag: Tag::Context(t), value: Scalar::Null }) == seq![0x34u8, t],
{
    law_tag_layout(Tag::Context(t));
    assert(encode_item(Item::Scalar { tag: Tag::Context(t), value: Scalar::Bool(false) })
        =~= seq![0x28u8, t]);
    assert(encode_item(Item::Scalar { tag: Tag::Context(t), value: Scalar::Bool(true) }) =~= seq![
        0x29u8,
        t,
    ]);
    assert(encode_item(Item::Scalar { tag: Tag::Context(t), value: Scalar::Null }) =~= seq![
        0x34u8,
        t,
    ]);
}

/// Structures, arrays and lists start with 21, 22 and 23, and all of them end
/// with 24.
pub proof fn law_container_layout(t: u8)
    ensures
        encode_item(Item::Start { tag: Tag::Anonymous, kind: ContainerKind::Structure }) == seq![
            0x15u8,
        ],
        encode_item(Item::Start { tag: Tag::Anonymous, kind: ContainerKind::Array }) == seq![
            0x16u8,
        ],
        encode_item(Item::Start { tag: Tag::Anonymous, kind: ContainerKind::List }) == seq![0x17u8],
        encode_item(Item::Start { tag: Tag::Context(t), kind: ContainerKind::Structure }) == seq![
            0x35u8,
            t,
        ],
        encode_item(Item::Start { tag: Tag::Context(t), kind: ContainerKind::Array }) == seq![
            0x36u8,
            t,
        ],
        encode_item(Item::Start { tag: Tag::Context(t), kind: ContainerKind::List }) == seq![
            0x37u8,
            t,
        ],
        encode_item(Item::End) == seq![0x18u8],
{
    law_tag_layout(Tag::Context(t));
    law_tag_layout(Tag::Anonymous);
    let kinds = (ContainerKind::Structure, ContainerKind::Array, ContainerKind::List);
    assert(encode_item(Item::Start { tag: Tag::Anonymous, kind: kinds.0 }) =~= seq![0x15u8]);
    assert(encode_item(Item::Start { tag: Tag::Anonymous, kind: kinds.1 }) =~= seq![0x16u8]);
    assert(encode_item(Item::Start { tag: Tag::Anonymous, kind: kinds.2 }) =~= seq![0x17u8]);
    assert(encode_item(Item::Start { tag: Tag::Context(t), kind: kinds.0 }) =~= seq![0x35u8, t]);
    assert(encode_item(Item::Start { tag: Tag::Context(t), kind: kinds.1 }) =~= seq![0x36u8, t]);
    assert(encode_item(Item::Start { tag: Tag::Context(t), kind: kinds.2 }) =~= seq![0x37u8, t]);
}

/// An octet string under a context tag is 0x30 or 0x31, the tag, its length in
/// one or two bytes, and its octets.
pub proof fn law_octets_layout(t: u8, octets: Seq<u8>)
    ensures
        ({
            let bytes = encode_item(
                Item::Scalar { tag: Tag::Context(t), value: Scalar::Bytes(octets) },
            );
            &&& octets.len() < 0x100 ==> bytes == seq![0x30u8, t, octets.len() as u8] + octets
            &&& 0x100 <= octets.len() < 0x1_0000 ==> bytes == seq![
                0x31u8,
                t,
                (octets.len() as int % 0x100) as u8,
                (octets.len() as int / 0x100) as u8,
            ] + octets
        }),
{
    law_tag_layout(Tag::Context(t));
    law_numbers_are_little_endian(octets.len());
    let bytes = encode_item(Item::Scalar { tag: Tag::Context(t), value: Scalar::Bytes(octets) });
    if octets.len() < 0x100 {
        assert(bytes =~= seq![0x30u8, t, octets.len() as u8] + octets);
    } else if octets.len() < 0x1_0000 {
        assert(bytes =~= seq![
            0x31u8,
            t,
            (octets.len() as int % 0x100) as u8,
            (octets.len() as int / 0x100) as u8,
        ] + octets);
    }
}

/// A string under a context tag is 0x2C or 0x2D, the tag, the number of its bytes
/// in one or two bytes, and its bytes.
pub proof fn law_text_layout(t: u8, text: Seq<char>)
    ensures
        ({
            let octets = encode_utf8(text);
            let bytes = encode_item(
                Item::Scalar { tag: Tag::Context(t), value: Scalar::Utf8(text) },
            );
            &&& octets.len() < 0x100 ==> bytes == seq![0x2Cu8, t, octets.len() as u8] + octets
            &&& 0x100 <= octets.len() < 0x1_0000 ==> bytes == seq![
                0x2Du8,
                t,
                (octets.len() as int % 0x100) as u8,
                (octets.len() as int / 0x100) as u8,
            ] + octets
        }),
{
    let octets = encode_utf8(text);
    law_tag_layout(Tag::Context(t));
    law_numbers_are_little_endian(octets.len());
    let bytes = encode_item(Item::Scalar { tag: Tag::Context(t), value: Scalar::Utf8(text) });
    if octets.len() < 0x100 {
        assert(bytes =~= seq![0x2Cu8, t, octets.len() as u8] + octets);
    } else if octets.len() < 0x1_0000 {
        assert(bytes =~= seq![
            0x2Du8,
            t,
            (octets.len() as int % 0x100) as u8,
            (octets.len() as int / 0x100) as u8,
        ] + octets);
    }
}

/// A small signed integer under a context tag is 0x20, the tag and one byte in
/// two's complement.
pub proof fn law_int_layout(t: u8, v: i64)
    requires
        -0x80 <= v < 0x80,
    ensures
        encode_item(Item::Scalar { tag: Tag::Context(t), value: Scalar::Int(v) }) == seq![
            0x20u8,
            t,
            (if v >= 0 {
                v as int
            } else {
                v as int + 0x100
            }) as u8,
        ],
{
    law_tag_layout(Tag::Context(t));
    lemma_pow256_values();
    let raw = if v >= 0 {
        v as int
    } else {
        v as int + 0x100
    };
    law_numbers_are_little_endian(raw as nat);
    assert(encode_item(Item::Scalar { tag: Tag::Context(t), value: Scalar::Int(v) }) =~= seq![
        0x20u8,
        t,
        raw as u8,
    ]);
}

/// An anonymous structure starts with 0x15, ends with 0x18 and holds the bytes of
/// its members between them.
pub proof fn law_structure_layout(inner: Seq<Item>)
    ensures
        structure(inner) == seq![0x15u8] + encode_all(inner) + seq![0x18u8],
{
    let start = Item::Start { tag: Tag::Anonymous, kind: ContainerKind::Structure };
    law_container_layout(0);
    crate::tlv::laws::lemma_encode_concat(seq![start] + inner, seq![Item::End]);
    crate::tlv::laws::lemma_encode_concat(seq![start], inner);
    crate::tlv::laws::lemma_encode_one(start);
    crate::tlv::laws::lemma_encode_one(Item::End);
}

/// An unsigned integer is read from fields of one, two, four or eight bytes, even
/// if fewer would do.
pub proof fn law_uints_are_read(t: u8, field: Seq<u8>, rest: Seq<u8>)
    ensures
        field.len() == 1 ==> decode_front(seq![0x24u8, t] + field + rest) == Front::Element(
            Item::Scalar { tag: Tag::Context(t), value: Scalar::Uint(field[0] as u64) },
            3,
        ),
        field.len() == 2 ==> decode_front(seq![0x25u8, t] + field + rest) == Front::Element(
            Item::Scalar {
                tag: Tag::Context(t),
                value: Scalar::Uint((field[0] + 0x100 * field[1]) as u64),
            },
            4,
        ),
        field.len() == 4 ==> decode_front(seq![0x26u8, t] + field + rest) == Front::Element(
            Item::Scalar {
                tag: Tag::Context(t),
                value: Scalar::Uint(
                    (field[0] + 0x100 * field[1] + 0x1_0000 * field[2] + 0x100_0000
                        * field[3]) as u64,
                ),
            },
            6,
        ),
        field.len() == 8 ==> decode_front(seq![0x27u8, t] + field + rest) == Front::Element(
            Item::Scalar {
                tag: Tag::Context(t),
                value: Scalar::Uint(
                    (field[0] + 0x100 * field[1] + 0x1_0000 * field[2] + 0x100_0000 * field[3]
                        + 0x1_0000_0000 * field[4] + 0x100_0000_0000 * field[5]
                        + 0x1_0000_0000_0000 * field[6] + 0x100_0000_0000_0000 * field[7]) as u64,
                ),
            },
            10,
        ),
{
    lemma_value(field);
    lemma_value(seq![t]);
    let head = if field.len() == 1 {
        0x24u8
    } else if field.len() == 2 {
        0x25u8
    } else if field.len() == 4 {
        0x26u8
    } else {
        0x27u8
    };
    let all = seq![head, t] + field + rest;
    assert(all.subrange(1, 2) =~= seq![t]);
    assert(all.skip(2) =~= field + rest);
    assert((field + rest).take(field.len() as int) =~= field);
}

/// Control octets with a type above 24, and an end of a container with a tag, are
/// refused.
pub proof fn law_reserved_controls(bytes: Seq<u8>)
    requires
        bytes.len() > 0,
        bytes[0] % 32 > 24 || (bytes[0] % 32 == 24 && bytes[0] != 0x18),
    ensures
        decode_front(bytes) == Front::Fault(TlvError::InvalidControl(bytes[0])),
{
}

/// What is cut off inside an element is not read as anything else.
pub proof fn law_cut_elements(item: Item, k: int)
    requires
        encodable(item),
        0 < k < encode_item(item).len(),
    ensures
        decode_front(encode_item(item).take(k)) == Front::Fault(TlvError::UnexpectedEof),
{
    let cut = encode_item(item).take(k);
    match item {
        Item::End => {},
        Item::Start { tag, kind } => {
            lemma_tag_roundtrip(tag);
            assert(cut[0] == crate::tlv::control(tag, start_kind(kind)));
        },
        Item::Scalar { tag, value } => {
            lemma_tag_roundtrip(tag);
            lemma_kind(value);
            assert(cut[0] == crate::tlv::control(tag, scalar_kind(value)));
            let head = 1 + tag_width(tag_form(tag));
            if k >= head {
                assert(cut.skip(head as int) =~= scalar_bytes(value).take(k - head));
                lemma_cut_payload(value, k - head);
            }
        },
    }
}

/// The types of scalars come before those of containers.
proof fn lemma_kind(value: Scalar)
    ensures
        0 <= scalar_kind(value) <= 20,
{
}

/// A payload that is cut off is not read.
#[verifier::spinoff_prover]
proof fn lemma_cut_payload(value: Scalar, k: int)
    requires
        encodable(Item::Scalar { tag: Tag::Anonymous, value }),
        0 <= k < scalar_bytes(value).len(),
    ensures
        payload_value(scalar_kind(value), scalar_bytes(value).take(k)) == Payload::Fault(
            TlvError::UnexpectedEof,
        ),
{
    match value {
        Scalar::Utf8(text) => {
            let selector = uint_selector(encode_utf8(text).len());
            assert((12 + selector) % 4 == selector);
            lemma_cut_string(encode_utf8(text), k);
        },
        Scalar::Bytes(octets) => {
            let selector = uint_selector(octets.len());
            assert((16 + selector) % 4 == selector);
            lemma_cut_string(octets, k);
        },
        Scalar::Uint(v) => {
            let selector = uint_selector(v as nat);
            assert((4 + selector) % 4 == selector);
            lemma_le_bytes_len(v as nat, field_width(selector));
        },
        Scalar::Int(v) => {
            let selector = int_selector(v as int);
            let width = field_width(selector);
            assert(selector % 4 == selector);
            lemma_le_bytes_len(
                (if v >= 0 {
                    v as int
                } else {
                    v as int + pow256(width)
                }) as nat,
                width,
            );
        },
        Scalar::Float32Bits(v) => lemma_le_bytes_len(v as nat, 4),
        Scalar::Float64Bits(v) => lemma_le_bytes_len(v as nat, 8),
        _ => {},
    }
}

/// A string that is cut off is not read.
proof fn lemma_cut_string(octets: Seq<u8>, k: int)
    requires
        octets.len() <= u64::MAX,
        0 <= k < le_bytes(octets.len(), field_width(uint_selector(octets.len()))).len()
            + octets.len(),
    ensures
        ({
            let width = field_width(uint_selector(octets.len()));
            string_payload((le_bytes(octets.len(), width) + octets).take(k), width) is None
        }),
{
    lemma_pow256_values();
    let width = field_width(uint_selector(octets.len()));
    lemma_le_roundtrip(octets.len(), width);
    let cut = (le_bytes(octets.len(), width) + octets).take(k);
    if k >= width {
        assert(cut.take(width as int) =~= le_bytes(octets.len(), width));
    }
}

/// The field under a tag is what the last member with that tag and type holds.
pub proof fn law_fields_are_found(members: Seq<Item>, tag: u8, v: u64, octets: Seq<u8>, item: Item)
    ensures
        uint_field(
            members.push(Item::Scalar { tag: Tag::Context(tag), value: Scalar::Uint(v) }),
            tag,
        ) == Some(v),
        bytes_field(
            members.push(Item::Scalar { tag: Tag::Context(tag), value: Scalar::Bytes(octets) }),
            tag,
        ) == Some(octets),
        (forall|w: u64| item != Item::Scalar { tag: Tag::Context(tag), value: Scalar::Uint(w) })
            ==> uint_field(members.push(item), tag) == uint_field(members, tag),
        (forall|w: Seq<u8>|
            item != Item::Scalar { tag: Tag::Context(tag), value: Scalar::Bytes(w) })
            ==> bytes_field(members.push(item), tag) == bytes_field(members, tag),
        uint_field(Seq::empty(), tag) is None,
        bytes_field(Seq::empty(), tag) is None,
{
    let number = Item::Scalar { tag: Tag::Context(tag), value: Scalar::Uint(v) };
    let string = Item::Scalar { tag: Tag::Context(tag), value: Scalar::Bytes(octets) };
    assert(members.push(number).drop_last() =~= members);
    assert(members.push(string).drop_last() =~= members);
    assert(members.push(item).drop_last() =~= members);
    if let Some(w) = uint_at(item, tag) {
        assert(item == Item::Scalar { tag: Tag::Context(tag), value: Scalar::Uint(w) });
    }
    if let Some(w) = bytes_at(item, tag) {
        assert(item == Item::Scalar { tag: Tag::Context(tag), value: Scalar::Bytes(w) });
    }
}

/// A field that is found is a member: with that context tag, that type and that
/// value.
pub proof fn law_found_fields_are_members(members: Seq<Item>, tag: u8)
    ensures
        uint_field(members, tag) matches Some(v) ==> members.contains(
            Item::Scalar { tag: Tag::Context(tag), value: Scalar::Uint(v) },
        ),
        bytes_field(members, tag) matches Some(v) ==> members.contains(
            Item::Scalar { tag: Tag::Context(tag), value: Scalar::Bytes(v) },
        ),
        int_field(members, tag) matches Some(v) ==> members.contains(
            Item::Scalar { tag: Tag::Context(tag), value: Scalar::Int(v) },
        ),
        utf8_field(members, tag) matches Some(v) ==> members.contains(
            Item::Scalar { tag: Tag::Context(tag), value: Scalar::Utf8(v) },
        ),
{
    if uint_field(members, tag) is Some {
        lemma_field_witness(members, |i: Item| uint_at(i, tag));
    }
    if bytes_field(members, tag) is Some {
        lemma_field_witness(members, |i: Item| bytes_at(i, tag));
    }
    if int_field(members, tag) is Some {
        lemma_field_witness(members, |i: Item| crate::tlv::members::int_at(i, tag));
    }
    if utf8_field(members, tag) is Some {
        lemma_field_witness(members, |i: Item| crate::tlv::members::utf8_at(i, tag));
    }
}

/// A signed integer that does not fit in one byte is 0x21, 0x22 or 0x23, the tag,
/// and two, four or eight bytes in two's complement, the lowest one first.
pub proof fn law_wide_int_layout(t: u8, v: i64)
    requires
        v < -0x80 || v >= 0x80,
    ensures
        ({
            let bytes = encode_item(Item::Scalar { tag: Tag::Context(t), value: Scalar::Int(v) });
            &&& bytes[1] == t
            &&& -0x8000 <= v < 0x8000 ==> {
                &&& bytes.len() == 4
                &&& bytes[0] == 0x21
                &&& bytes[2] + 0x100 * bytes[3] == (if v >= 0 {
                    v as int
                } else {
                    v + 0x1_0000
                })
            }
            &&& (v < -0x8000 || v >= 0x8000) && -0x8000_0000 <= v < 0x8000_0000 ==> {
                &&& bytes.len() == 6
                &&& bytes[0] == 0x22
                &&& bytes[2] + 0x100 * bytes[3] + 0x1_0000 * bytes[4] + 0x100_0000 * bytes[5] == (
                if v >= 0 {
                    v as int
                } else {
                    v + 0x1_0000_0000
                })
            }
            &&& v < -0x8000_0000 || v >= 0x8000_0000 ==> bytes.len() == 10 && bytes[0] == 0x23
        }),
{
    law_tag_layout(Tag::Context(t));
    lemma_pow256_values();
    let width = field_width(int_selector(v as int));
    let raw = (if v >= 0 {
        v as int
    } else {
        v as int + pow256(width)
    }) as nat;
    lemma_le_roundtrip(raw, width);
    let field = le_bytes(raw, width);
    lemma_value(field);
    let bytes = encode_item(Item::Scalar { tag: Tag::Context(t), value: Scalar::Int(v) });
    assert(bytes.skip(2) =~= field);
    assert(forall|i: int| 0 <= i < field.len() ==> bytes[i + 2] == #[trigger] field[i]);
    if width == 2 {
        assert(bytes[2] == field[0] && bytes[3] == field[1]);
    } else if width == 4 {
        assert(bytes[2] == field[0] && bytes[3] == field[1]);
        assert(bytes[4] == field[2] && bytes[5] == field[3]);
    }
}

/// The bits of floating-point numbers stand behind 0x2A or 0x2B and the tag in
/// four or eight bytes, the lowest one first.
pub proof fn law_float_bits_layout(t: u8, single: u32, double: u64)
    ensures
        encode_item(Item::Scalar { tag: Tag::Context(t), value: Scalar::Float32Bits(single) })
            == seq![0x2Au8, t] + le_bytes(single as nat, 4),
        encode_item(Item::Scalar { tag: Tag::Context(t), value: Scalar::Float64Bits(double) })
            == seq![0x2Bu8, t] + le_bytes(double as nat, 8),
{
    law_tag_layout(Tag::Context(t));
    assert(encode_item(Item::Scalar { tag: Tag::Context(t), value: Scalar::Float32Bits(single) })
        =~= seq![0x2Au8, t] + le_bytes(single as nat, 4));
    assert(encode_item(Item::Scalar { tag: Tag::Context(t), value: Scalar::Float64Bits(double) })
        =~= seq![0x2Bu8, t] + le_bytes(double as nat, 8));
}

} // verus!
