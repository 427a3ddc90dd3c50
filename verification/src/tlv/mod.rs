//! The Matter TLV encoding.
//!
//! A TLV stream is a sequence of elements. Each element starts with a control
//! octet: its upper three bits select the form of the tag, its lower five bits
//! the type of the element. The tag and the payload follow, little-endian.
//!
//! The model of a stream is a sequence of [`Item`]s. [`encode_all`] says which
//! bytes a sequence of items becomes, [`decode_all`] which items a byte
//! sequence holds and how it ends.

pub mod laws;
pub mod layout;
pub mod members;
pub mod outline;
pub mod reader;
pub mod writer;

pub use reader::TlvReader;
pub use writer::TlvWriter;

use vstd::prelude::*;
use vstd::utf8::{decode_utf8, encode_utf8, valid_utf8};

verus! {

/// The tag of an element.
#[allow(inconsistent_fields)]
#[derive(Copy, Clone, Debug, PartialEq, Eq, Structural)]
pub enum Tag {
    /// No tag.
    Anonymous,
    /// A one-byte tag whose meaning the enclosing structure gives.
    Context(u8),
    /// A two-byte tag of the common profile.
    CommonProfile2(u16),
    /// A four-byte tag of the common profile.
    CommonProfile4(u32),
    /// A two-byte tag of an implied profile.
    ImplicitProfile2(u16),
    /// A four-byte tag of an implied profile.
    ImplicitProfile4(u32),
    /// A two-byte tag with its vendor and profile.
    FullyQualified6 {
        /// Vendor of the profile.
        vendor: u16,
        /// Profile number.
        profile: u16,
        /// Tag number.
        tag: u16,
    },
    /// A four-byte tag with its vendor and profile.
    FullyQualified8 {
        /// Vendor of the profile.
        vendor: u16,
        /// Profile number.
        profile: u16,
        /// Tag number.
        tag: u32,
    },
}

/// The kinds of container.
#[derive(Copy, Clone, Debug, PartialEq, Eq, Structural)]
pub enum ContainerKind {
    /// A structure: members with distinct tags.
    Structure,
    /// An array: anonymous members.
    Array,
    /// A list: members with any tags.
    List,
}

/// A value of the encoding.
#[derive(Debug, PartialEq, Eq)]
pub enum Value {
    /// A signed integer.
    Int(i64),
    /// An unsigned integer.
    Uint(u64),
    /// A boolean.
    Bool(bool),
    /// The bits of a single-precision floating-point number.
    Float32Bits(u32),
    /// The bits of a double-precision floating-point number.
    Float64Bits(u64),
    /// A UTF-8 string.
    Utf8(String),
    /// An octet string.
    Bytes(Vec<u8>),
    /// The null value.
    Null,
    /// A structure with its tagged members.
    Structure(Vec<(Tag, Value)>),
    /// An array with its members.
    Array(Vec<Value>),
    /// A list with its tagged members.
    List(Vec<(Tag, Value)>),
}

/// One element of a stream, as the reader hands it out.
#[derive(Debug, PartialEq, Eq)]
pub enum Element {
    /// A value that is no container.
    Scalar {
        /// The element's tag.
        tag: Tag,
        /// The element's value.
        value: Value,
    },
    /// The start of a container.
    ContainerStart {
        /// The container's tag.
        tag: Tag,
        /// The container's kind.
        kind: ContainerKind,
    },
    /// The end of the innermost open container.
    ContainerEnd,
}

/// The ways in which bytes fail to be a TLV stream.
#[derive(Copy, Clone, Debug, PartialEq, Eq, Structural)]
pub enum TlvError {
    /// The input ends inside an element.
    UnexpectedEof,
    /// The control octet has a reserved type, or tags an end of container.
    InvalidControl(u8),
    /// A string is not valid UTF-8.
    InvalidUtf8,
    /// The input ends inside a container.
    UnclosedContainer,
}

/// The model of a value that is no container.
#[verifier::ext_equal]
pub enum Scalar {
    /// A signed integer.
    Int(i64),
    /// An unsigned integer.
    Uint(u64),
    /// A boolean.
    Bool(bool),
    /// The bits of a single-precision number.
    Float32Bits(u32),
    /// The bits of a double-precision number.
    Float64Bits(u64),
    /// The characters of a string.
    Utf8(Seq<char>),
    /// The octets of an octet string.
    Bytes(Seq<u8>),
    /// Null.
    Null,
    /// Stands for a container value; no byte sequence decodes to it.
    Nested,
}

/// The model of an element.
#[verifier::ext_equal]
pub enum Item {
    /// A tagged scalar.
    Scalar {
        /// The tag.
        tag: Tag,
        /// The scalar.
        value: Scalar,
    },
    /// The start of a container.
    Start {
        /// The tag.
        tag: Tag,
        /// The kind of the container.
        kind: ContainerKind,
    },
    /// The end of a container.
    End,
}

impl View for Value {
    type V = Scalar;

    open spec fn view(&self) -> Scalar {
        match *self {
            Value::Int(v) => Scalar::Int(v),
            Value::Uint(v) => Scalar::Uint(v),
            Value::Bool(v) => Scalar::Bool(v),
            Value::Float32Bits(v) => Scalar::Float32Bits(v),
            Value::Float64Bits(v) => Scalar::Float64Bits(v),
            Value::Utf8(v) => Scalar::Utf8(v@),
            Value::Bytes(v) => Scalar::Bytes(v@),
            Value::Null => Scalar::Null,
            _ => Scalar::Nested,
        }
    }
}

impl View for Element {
    type V = Item;

    open spec fn view(&self) -> Item {
        match *self {
            Element::Scalar { tag, value } => Item::Scalar { tag, value: value@ },
            Element::ContainerStart { tag, kind } => Item::Start { tag, kind },
            Element::ContainerEnd => Item::End,
        }
    }
}

/// The `n`-th power of 256.
pub open spec fn pow256(n: nat) -> nat
    decreases n,
{
    if n == 0 {
        1
    } else {
        256 * pow256((n - 1) as nat)
    }
}

/// The number that `bytes` represent in little-endian order.
pub open spec fn le_value(bytes: Seq<u8>) -> nat
    decreases bytes.len(),
{
    if bytes.len() == 0 {
        0
    } else {
        bytes[0] as nat + 256 * le_value(bytes.skip(1))
    }
}

/// The lowest `width` little-endian bytes of `value`.
pub open spec fn le_bytes(value: nat, width: nat) -> Seq<u8>
    decreases width,
{
    if width == 0 {
        Seq::empty()
    } else {
        seq![(value % 256) as u8] + le_bytes(value / 256, (width - 1) as nat)
    }
}

/// The number that `bytes` represent in little-endian two's complement.
pub open spec fn signed_le_value(bytes: Seq<u8>) -> int {
    let raw = le_value(bytes) as int;
    if 2 * raw < pow256(bytes.len()) {
        raw
    } else {
        raw - pow256(bytes.len())
    }
}

/// The field width that the lowest two bits of an element type select.
pub open spec fn field_width(selector: int) -> nat {
    if selector == 0 {
        1
    } else if selector == 1 {
        2
    } else if selector == 2 {
        4
    } else {
        8
    }
}

/// The number of bytes that a tag of the given form takes.
pub open spec fn tag_width(form: int) -> nat {
    if form == 0 {
        0
    } else if form == 1 {
        1
    } else if form == 2 || form == 4 {
        2
    } else if form == 3 || form == 5 {
        4
    } else if form == 6 {
        6
    } else {
        8
    }
}

/// The tag that `bytes` hold in the given form.
pub open spec fn tag_value(form: int, bytes: Seq<u8>) -> Tag {
    if form == 0 {
        Tag::Anonymous
    } else if form == 1 {
        Tag::Context(le_value(bytes) as u8)
    } else if form == 2 {
        Tag::CommonProfile2(le_value(bytes) as u16)
    } else if form == 3 {
        Tag::CommonProfile4(le_value(bytes) as u32)
    } else if form == 4 {
        Tag::ImplicitProfile2(le_value(bytes) as u16)
    } else if form == 5 {
        Tag::ImplicitProfile4(le_value(bytes) as u32)
    } else if form == 6 {
        Tag::FullyQualified6 {
            vendor: le_value(bytes.subrange(0, 2)) as u16,
            profile: le_value(bytes.subrange(2, 4)) as u16,
            tag: le_value(bytes.subrange(4, 6)) as u16,
        }
    } else {
        Tag::FullyQualified8 {
            vendor: le_value(bytes.subrange(0, 2)) as u16,
            profile: le_value(bytes.subrange(2, 4)) as u16,
            tag: le_value(bytes.subrange(4, 8)) as u32,
        }
    }
}

/// The form that a tag is written in.
pub open spec fn tag_form(tag: Tag) -> int {
    match tag {
        Tag::Anonymous => 0,
        Tag::Context(_) => 1,
        Tag::CommonProfile2(_) => 2,
        Tag::CommonProfile4(_) => 3,
        Tag::ImplicitProfile2(_) => 4,
        Tag::ImplicitProfile4(_) => 5,
        Tag::FullyQualified6 { .. } => 6,
        Tag::FullyQualified8 { .. } => 7,
    }
}

/// The bytes of a tag.
pub open spec fn tag_bytes(tag: Tag) -> Seq<u8> {
    match tag {
        Tag::Anonymous => Seq::empty(),
        Tag::Context(t) => le_bytes(t as nat, 1),
        Tag::CommonProfile2(t) => le_bytes(t as nat, 2),
        Tag::CommonProfile4(t) => le_bytes(t as nat, 4),
        Tag::ImplicitProfile2(t) => le_bytes(t as nat, 2),
        Tag::ImplicitProfile4(t) => le_bytes(t as nat, 4),
        Tag::FullyQualified6 { vendor, profile, tag } => le_bytes(vendor as nat, 2) + le_bytes(
            profile as nat,
            2,
        ) + le_bytes(tag as nat, 2),
        Tag::FullyQualified8 { vendor, profile, tag } => le_bytes(vendor as nat, 2) + le_bytes(
            profile as nat,
            2,
        ) + le_bytes(tag as nat, 4),
    }
}

/// What the payload of an element of a scalar type holds.
pub enum Payload {
    /// The payload is cut off or invalid.
    Fault(TlvError),
    /// The payload holds a scalar and takes the given number of bytes.
    Holds(Scalar, nat),
}

/// The string payload at the front of `bytes`: a length of `width` bytes, then
/// that many bytes.
pub open spec fn string_payload(bytes: Seq<u8>, width: nat) -> Option<Seq<u8>> {
    if bytes.len() < width {
        None
    } else {
        let len = le_value(bytes.take(width as int));
        if bytes.len() - width < len {
            None
        } else {
            Some(bytes.subrange(width as int, (width + len) as int))
        }
    }
}

/// What the bytes after the tag of an element of type `kind` hold.
pub open spec fn payload_value(kind: int, bytes: Seq<u8>) -> Payload {
    let width = field_width(kind % 4);
    if kind < 4 {
        if bytes.len() < width {
            Payload::Fault(TlvError::UnexpectedEof)
        } else {
            Payload::Holds(
                Scalar::Int(signed_le_value(bytes.take(width as int)) as i64),
                width,
            )
        }
    } else if kind < 8 {
        if bytes.len() < width {
            Payload::Fault(TlvError::UnexpectedEof)
        } else {
            Payload::Holds(Scalar::Uint(le_value(bytes.take(width as int)) as u64), width)
        }
    } else if kind == 8 {
        Payload::Holds(Scalar::Bool(false), 0)
    } else if kind == 9 {
        Payload::Holds(Scalar::Bool(true), 0)
    } else if kind == 10 {
        if bytes.len() < 4 {
            Payload::Fault(TlvError::UnexpectedEof)
        } else {
            Payload::Holds(Scalar::Float32Bits(le_value(bytes.take(4)) as u32), 4)
        }
    } else if kind == 11 {
        if bytes.len() < 8 {
            Payload::Fault(TlvError::UnexpectedEof)
        } else {
            Payload::Holds(Scalar::Float64Bits(le_value(bytes.take(8)) as u64), 8)
        }
    } else if kind < 16 {
        match string_payload(bytes, width) {
            None => Payload::Fault(TlvError::UnexpectedEof),
            Some(text) => if valid_utf8(text) {
                Payload::Holds(Scalar::Utf8(decode_utf8(text)), width + text.len())
            } else {
                Payload::Fault(TlvError::InvalidUtf8)
            },
        }
    } else if kind < 20 {
        match string_payload(bytes, width) {
            None => Payload::Fault(TlvError::UnexpectedEof),
            Some(octets) => Payload::Holds(Scalar::Bytes(octets), width + octets.len()),
        }
    } else {
        Payload::Holds(Scalar::Null, 0)
    }
}

/// The container kind of the element types 21 to 23.
pub open spec fn container_kind(kind: int) -> ContainerKind {
    if kind == 21 {
        ContainerKind::Structure
    } else if kind == 22 {
        ContainerKind::Array
    } else {
        ContainerKind::List
    }
}

/// What stands at the front of a byte sequence.
pub enum Front {
    /// Nothing: the sequence is empty.
    Empty,
    /// Something that is no element.
    Fault(TlvError),
    /// An element that takes the given number of bytes.
    Element(Item, nat),
}

/// What stands at the front of `bytes`.
pub open spec fn decode_front(bytes: Seq<u8>) -> Front {
    if bytes.len() == 0 {
        Front::Empty
    } else {
        let form = bytes[0] as int / 32;
        let kind = bytes[0] as int % 32;
        let head = 1 + tag_width(form);
        if kind > 24 || (kind == 24 && form != 0) {
            Front::Fault(TlvError::InvalidControl(bytes[0]))
        } else if bytes.len() < head {
            Front::Fault(TlvError::UnexpectedEof)
        } else {
            let tag = tag_value(form, bytes.subrange(1, head as int));
            if kind == 24 {
                Front::Element(Item::End, 1)
            } else if kind > 20 {
                Front::Element(Item::Start { tag, kind: container_kind(kind) }, head)
            } else {
                match payload_value(kind, bytes.skip(head as int)) {
                    Payload::Fault(e) => Front::Fault(e),
                    Payload::Holds(value, size) => Front::Element(
                        Item::Scalar { tag, value },
                        head + size,
                    ),
                }
            }
        }
    }
}

/// The items of a byte sequence, and what stopped the reading of it.
#[verifier::ext_equal]
pub struct Stream {
    /// The items, in order.
    pub items: Seq<Item>,
    /// What stands behind the last item; `None` if nothing does.
    pub fault: Option<TlvError>,
}

/// The items that `bytes` hold.
pub open spec fn decode_all(bytes: Seq<u8>) -> Stream
    decreases bytes.len(),
{
    match decode_front(bytes) {
        Front::Empty => Stream { items: Seq::empty(), fault: None },
        Front::Fault(e) => Stream { items: Seq::empty(), fault: Some(e) },
        Front::Element(item, size) => if 0 < size <= bytes.len() {
            let rest = decode_all(bytes.skip(size as int));
            Stream { items: seq![item] + rest.items, fault: rest.fault }
        } else {
            Stream { items: Seq::empty(), fault: Some(TlvError::UnexpectedEof) }
        },
    }
}

/// The selector of the narrowest unsigned field that holds `value`.
pub open spec fn uint_selector(value: nat) -> int {
    if value < 0x100 {
        0
    } else if value < 0x1_0000 {
        1
    } else if value < 0x1_0000_0000 {
        2
    } else {
        3
    }
}

/// The selector of the narrowest signed field that holds `value`.
pub open spec fn int_selector(value: int) -> int {
    if -0x80 <= value < 0x80 {
        0
    } else if -0x8000 <= value < 0x8000 {
        1
    } else if -0x8000_0000 <= value < 0x8000_0000 {
        2
    } else {
        3
    }
}

/// The control octet for a tag and an element type.
pub open spec fn control(tag: Tag, kind: int) -> u8 {
    (tag_form(tag) * 32 + kind) as u8
}

/// The element type of a scalar in its narrowest form.
pub open spec fn scalar_kind(value: Scalar) -> int {
    match value {
        Scalar::Int(v) => int_selector(v as int),
        Scalar::Uint(v) => 4 + uint_selector(v as nat),
        Scalar::Bool(v) => if v {
            9
        } else {
            8
        },
        Scalar::Float32Bits(_) => 10,
        Scalar::Float64Bits(_) => 11,
        Scalar::Utf8(text) => 12 + uint_selector(encode_utf8(text).len()),
        Scalar::Bytes(octets) => 16 + uint_selector(octets.len()),
        Scalar::Null => 20,
        Scalar::Nested => 20,
    }
}

/// The payload bytes of a scalar in its narrowest form.
pub open spec fn scalar_bytes(value: Scalar) -> Seq<u8> {
    match value {
        Scalar::Int(v) => {
            let width = field_width(int_selector(v as int));
            le_bytes(
                (if v >= 0 {
                    v as int
                } else {
                    v as int + pow256(width)
                }) as nat,
                width,
            )
        },
        Scalar::Uint(v) => le_bytes(v as nat, field_width(uint_selector(v as nat))),
        Scalar::Bool(_) => Seq::empty(),
        Scalar::Float32Bits(v) => le_bytes(v as nat, 4),
        Scalar::Float64Bits(v) => le_bytes(v as nat, 8),
        Scalar::Utf8(text) => {
            let octets = encode_utf8(text);
            le_bytes(octets.len(), field_width(uint_selector(octets.len()))) + octets
        },
        Scalar::Bytes(octets) => le_bytes(
            octets.len(),
            field_width(uint_selector(octets.len())),
        ) + octets,
        Scalar::Null => Seq::empty(),
        Scalar::Nested => Seq::empty(),
    }
}

/// The element type of the start of a container.
pub open spec fn start_kind(kind: ContainerKind) -> int {
    match kind {
        ContainerKind::Structure => 21,
        ContainerKind::Array => 22,
        ContainerKind::List => 23,
    }
}

/// The bytes of an item.
pub open spec fn encode_item(item: Item) -> Seq<u8> {
    match item {
        Item::Scalar { tag, value } => seq![control(tag, scalar_kind(value))] + tag_bytes(tag)
            + scalar_bytes(value),
        Item::Start { tag, kind } => seq![control(tag, start_kind(kind))] + tag_bytes(tag),
        Item::End => seq![0x18u8],
    }
}

/// The bytes of a sequence of items.
pub open spec fn encode_all(items: Seq<Item>) -> Seq<u8>
    decreases items.len(),
{
    if items.len() == 0 {
        Seq::empty()
    } else {
        encode_all(items.drop_last()) + encode_item(items.last())
    }
}

/// An item that some byte sequence stands for: no stand-in for a container,
/// and no string longer than a length field can say.
pub open spec fn encodable(item: Item) -> bool {
    match item {
        Item::Scalar { value: Scalar::Nested, .. } => false,
        Item::Scalar { value: Scalar::Bytes(octets), .. } => octets.len() <= u64::MAX,
        Item::Scalar { value: Scalar::Utf8(text), .. } => encode_utf8(text).len() <= u64::MAX,
        _ => true,
    }
}

/// A scalar under a context tag.
pub open spec fn at(tag: u8, value: Scalar) -> Item {
    Item::Scalar { tag: Tag::Context(tag), value }
}

/// The start of an anonymous structure.
pub open spec fn struct_start() -> Item {
    Item::Start { tag: Tag::Anonymous, kind: ContainerKind::Structure }
}

} // verus!
