//! Writing TLV element by element.

use crate::tlv::laws::lemma_pow256_values;
use crate::tlv::{
    control, encode_all, encode_item, field_width, int_selector, le_bytes, tag_bytes, uint_selector,
    ContainerKind, Item, Scalar, Tag, Value,
};
use vstd::prelude::*;

verus! {

/// The items that a tagged value is written as.
pub open spec fn value_items(tag: Tag, value: Value) -> Seq<Item>
    decreases value,
{
    match value {
        Value::Structure(members) => seq![Item::Start { tag, kind: ContainerKind::Structure }]
            + member_items(members@) + seq![Item::End],
        Value::List(members) => seq![Item::Start { tag, kind: ContainerKind::List }]
            + member_items(members@) + seq![Item::End],
        Value::Array(members) => seq![Item::Start { tag, kind: ContainerKind::Array }]
            + array_items(members@) + seq![Item::End],
        _ => seq![Item::Scalar { tag, value: value@ }],
    }
}

/// The items that the members of a structure or list are written as.
pub open spec fn member_items(members: Seq<(Tag, Value)>) -> Seq<Item>
    decreases members,
{
    if members.len() == 0 {
        Seq::empty()
    } else {
        let last = members[members.len() - 1];
        member_items(members.subrange(0, members.len() - 1)) + value_items(last.0, last.1)
    }
}

/// The items that the members of an array are written as.
pub open spec fn array_items(members: Seq<Value>) -> Seq<Item>
    decreases members,
{
    if members.len() == 0 {
        Seq::empty()
    } else {
        array_items(members.subrange(0, members.len() - 1)) + value_items(
            Tag::Anonymous,
            members[members.len() - 1],
        )
    }
}

/// Appends the lowest `width` little-endian bytes of `value`.
pub fn put_le(buf: &mut Vec<u8>, value: u64, width: usize)
    ensures
        final(buf)@ == old(buf)@ + le_bytes(value as nat, width as nat),
{
    let mut rest: u64 = value;
    let mut i: usize = 0;
    proof {
        assert(buf@ + le_bytes(value as nat, width as nat) =~= old(buf)@ + le_bytes(
            value as nat,
            width as nat,
        ));
    }
    while i < width
        invariant
            i <= width,
            buf@ + le_bytes(rest as nat, (width - i) as nat) == old(buf)@ + le_bytes(
                value as nat,
                width as nat,
            ),
        decreases width - i,
    {
        let ghost before = buf@;
        let low: u8 = (rest % 256) as u8;
        buf.push(low);
        proof {
            let tail = le_bytes((rest / 256) as nat, (width - i - 1) as nat);
            assert(le_bytes(rest as nat, (width - i) as nat) =~= seq![low] + tail);
            assert(before.push(low) + tail =~= before + (seq![low] + tail));
        }
        rest = rest / 256;
        i = i + 1;
    }
    proof {
        assert(buf@ + le_bytes(rest as nat, 0) =~= buf@);
    }
}

/// Appends the octets of a slice.
pub fn put_slice(buf: &mut Vec<u8>, octets: &[u8])
    ensures
        final(buf)@ == old(buf)@ + octets@,
{
    buf.extend_from_slice(octets);
    proof {
        assert(buf@ =~= old(buf)@ + octets@);
    }
}

fn width_of(selector: u8) -> (width: usize)
    requires
        selector < 4,
    ensures
        width == field_width(selector as int),
{
    if selector == 0 {
        1
    } else if selector == 1 {
        2
    } else if selector == 2 {
        4
    } else {
        8
    }
}

fn select_uint(value: u64) -> (selector: u8)
    ensures
        selector == uint_selector(value as nat),
        selector < 4,
{
    if value < 0x100 {
        0
    } else if value < 0x1_0000 {
        1
    } else if value < 0x1_0000_0000 {
        2
    } else {
        3
    }
}

fn select_int(value: i64) -> (selector: u8)
    ensures
        selector == int_selector(value as int),
        selector < 4,
{
    if -0x80 <= value && value < 0x80 {
        0
    } else if -0x8000 <= value && value < 0x8000 {
        1
    } else if -0x8000_0000 <= value && value < 0x8000_0000 {
        2
    } else {
        3
    }
}

/// Appends the control octet and the tag of an element.
fn put_head(buf: &mut Vec<u8>, tag: Tag, kind: u8)
    requires
        kind < 32,
    ensures
        final(buf)@ == old(buf)@ + (seq![control(tag, kind as int)] + tag_bytes(tag)),
{
    let form: u8 = match tag {
        Tag::Anonymous => 0,
        Tag::Context(_) => 1,
        Tag::CommonProfile2(_) => 2,
        Tag::CommonProfile4(_) => 3,
        Tag::ImplicitProfile2(_) => 4,
        Tag::ImplicitProfile4(_) => 5,
        Tag::FullyQualified6 { .. } => 6,
        Tag::FullyQualified8 { .. } => 7,
    };
    buf.push(form * 32 + kind);
    let ghost headed = buf@;
    match tag {
        Tag::Anonymous => {},
        Tag::Context(t) => put_le(buf, t as u64, 1),
        Tag::CommonProfile2(t) => put_le(buf, t as u64, 2),
        Tag::CommonProfile4(t) => put_le(buf, t as u64, 4),
        Tag::ImplicitProfile2(t) => put_le(buf, t as u64, 2),
        Tag::ImplicitProfile4(t) => put_le(buf, t as u64, 4),
        Tag::FullyQualified6 { vendor, profile, tag } => {
            put_le(buf, vendor as u64, 2);
            put_le(buf, profile as u64, 2);
            put_le(buf, tag as u64, 2);
        },
        Tag::FullyQualified8 { vendor, profile, tag } => {
            put_le(buf, vendor as u64, 2);
            put_le(buf, profile as u64, 2);
            put_le(buf, tag as u64, 4);
        },
    }
    proof {
        assert(buf@ =~= headed + tag_bytes(tag));
        assert(buf@ =~= old(buf)@ + (seq![control(tag, kind as int)] + tag_bytes(tag)));
    }
}

/// A TLV stream under construction.
pub struct TlvWriter {
    buf: Vec<u8>,
    written: Ghost<Seq<Item>>,
}

impl View for TlvWriter {
    type V = Seq<Item>;

    closed spec fn view(&self) -> Seq<Item> {
        self.written@
    }
}

impl TlvWriter {
    /// The buffer holds the encoding of the items written so far.
    pub closed spec fn wf(&self) -> bool {
        self.buf@ == encode_all(self.written@)
    }

    /// A writer that has written nothing.
    pub fn new() -> (writer: TlvWriter)
        ensures
            writer.wf(),
            writer@ == Seq::<Item>::empty(),
    {
        TlvWriter { buf: Vec::new(), written: Ghost(Seq::empty()) }
    }

    /// The bytes of everything written.
    pub fn finish(self) -> (bytes: Vec<u8>)
        requires
            self.wf(),
        ensures
            bytes@ == encode_all(self@),
    {
        self.buf
    }

    /// Notes that the bytes of `item` were appended to the buffer.
    fn note(&mut self, before: Ghost<Seq<u8>>, item: Ghost<Item>)
        requires
            before@ == encode_all(old(self)@),
            old(self).buf@ == before@ + encode_item(item@),
        ensures
            final(self).wf(),
            final(self)@ == old(self)@.push(item@),
    {
        proof {
            assert(self.written@.push(item@).drop_last() =~= self.written@);
        }
        self.written = Ghost(self.written@.push(item@));
    }

    /// Starts a container.
    pub fn start_container(&mut self, tag: Tag, kind: ContainerKind)
        requires
            old(self).wf(),
        ensures
            final(self).wf(),
            final(self)@ == old(self)@.push(Item::Start { tag, kind }),
    {
        let ghost before = self.buf@;
        let number: u8 = match kind {
            ContainerKind::Structure => 21,
            ContainerKind::Array => 22,
            ContainerKind::List => 23,
        };
        put_head(&mut self.buf, tag, number);
        self.note(Ghost(before), Ghost(Item::Start { tag, kind }));
    }

    /// Starts a structure.
    pub fn start_structure(&mut self, tag: Tag)
        requires
            old(self).wf(),
        ensures
            final(self).wf(),
            final(self)@ == old(self)@.push(Item::Start { tag, kind: ContainerKind::Structure }),
    {
        self.start_container(tag, ContainerKind::Structure);
    }

    /// Starts an array.
    pub fn start_array(&mut self, tag: Tag)
        requires
            old(self).wf(),
        ensures
            final(self).wf(),
            final(self)@ == old(self)@.push(Item::Start { tag, kind: ContainerKind::Array }),
    {
        self.start_container(tag, ContainerKind::Array);
    }

    /// Starts a list.
    pub fn start_list(&mut self, tag: Tag)
        requires
            old(self).wf(),
        ensures
            final(self).wf(),
            final(self)@ == old(self)@.push(Item::Start { tag, kind: ContainerKind::List }),
    {
        self.start_container(tag, ContainerKind::List);
    }

    /// Ends the innermost open container.
    pub fn end_container(&mut self)
        requires
            old(self).wf(),
        ensures
            final(self).wf(),
            final(self)@ == old(self)@.push(Item::End),
    {
        let ghost before = self.buf@;
        self.buf.push(0x18);
        proof {
            assert(self.buf@ =~= before + encode_item(Item::End));
        }
        self.note(Ghost(before), Ghost(Item::End));
    }

    /// Writes an unsigned integer in its narrowest form.
    pub fn put_uint(&mut self, tag: Tag, value: u64)
        requires
            old(self).wf(),
        ensures
            final(self).wf(),
            final(self)@ == old(self)@.push(Item::Scalar { tag, value: Scalar::Uint(value) }),
    {
        let ghost before = self.buf@;
        let selector = select_uint(value);
        put_head(&mut self.buf, tag, 4 + selector);
        put_le(&mut self.buf, value, width_of(selector));
        let ghost item = Item::Scalar { tag, value: Scalar::Uint(value) };
        proof {
            assert(self.buf@ =~= before + encode_item(item));
        }
        self.note(Ghost(before), Ghost(item));
    }

    /// Writes a signed integer in its narrowest form.
    pub fn put_int(&mut self, tag: Tag, value: i64)
        requires
            old(self).wf(),
        ensures
            final(self).wf(),
            final(self)@ == old(self)@.push(Item::Scalar { tag, value: Scalar::Int(value) }),
    {
        let ghost before = self.buf@;
        let selector = select_int(value);
        let width = width_of(selector);
        proof {
            lemma_pow256_values();
        }
        let modulus: i128 = if width == 1 {
            0x100
        } else if width == 2 {
            0x1_0000
        } else if width == 4 {
            0x1_0000_0000
        } else {
            0x1_0000_0000_0000_0000
        };
        let raw: u64 = if value >= 0 {
            value as u64
        } else {
            (value as i128 + modulus) as u64
        };
        put_head(&mut self.buf, tag, selector);
        put_le(&mut self.buf, raw, width);
        let ghost item = Item::Scalar { tag, value: Scalar::Int(value) };
        proof {
            assert(self.buf@ =~= before + encode_item(item));
        }
        self.note(Ghost(before), Ghost(item));
    }

    /// Writes a boolean.
    pub fn put_bool(&mut self, tag: Tag, value: bool)
        requires
            old(self).wf(),
        ensures
            final(self).wf(),
            final(self)@ == old(self)@.push(Item::Scalar { tag, value: Scalar::Bool(value) }),
    {
        let ghost before = self.buf@;
        let kind: u8 = if value {
            9
        } else {
            8
        };
        put_head(&mut self.buf, tag, kind);
        let ghost item = Item::Scalar { tag, value: Scalar::Bool(value) };
        proof {
            assert(self.buf@ =~= before + encode_item(item));
        }
        self.note(Ghost(before), Ghost(item));
    }

    /// Writes null.
    pub fn put_null(&mut self, tag: Tag)
        requires
            old(self).wf(),
        ensures
            final(self).wf(),
            final(self)@ == old(self)@.push(Item::Scalar { tag, value: Scalar::Null }),
    {
        let ghost before = self.buf@;
        put_head(&mut self.buf, tag, 20);
        let ghost item = Item::Scalar { tag, value: Scalar::Null };
        proof {
            assert(self.buf@ =~= before + encode_item(item));
        }
        self.note(Ghost(before), Ghost(item));
    }

    /// Writes the bits of a single-precision number.
    pub fn put_float32_bits(&mut self, tag: Tag, bits: u32)
        requires
            old(self).wf(),
        ensures
            final(self).wf(),
            final(self)@ == old(self)@.push(
                Item::Scalar { tag, value: Scalar::Float32Bits(bits) },
            ),
    {
        let ghost before = self.buf@;
        put_head(&mut self.buf, tag, 10);
        put_le(&mut self.buf, bits as u64, 4);
        let ghost item = Item::Scalar { tag, value: Scalar::Float32Bits(bits) };
        proof {
            assert(self.buf@ =~= before + encode_item(item));
        }
        self.note(Ghost(before), Ghost(item));
    }

    /// Writes the bits of a double-precision number.
    pub fn put_float64_bits(&mut self, tag: Tag, bits: u64)
        requires
            old(self).wf(),
        ensures
            final(self).wf(),
            final(self)@ == old(self)@.push(
                Item::Scalar { tag, value: Scalar::Float64Bits(bits) },
            ),
    {
        let ghost before = self.buf@;
        put_head(&mut self.buf, tag, 11);
        put_le(&mut self.buf, bits, 8);
        let ghost item = Item::Scalar { tag, value: Scalar::Float64Bits(bits) };
        proof {
            assert(self.buf@ =~= before + encode_item(item));
        }
        self.note(Ghost(before), Ghost(item));
    }

    /// Writes an octet string.
    pub fn put_bytes(&mut self, tag: Tag, octets: &[u8])
        requires
            old(self).wf(),
        ensures
            final(self).wf(),
            final(self)@ == old(self)@.push(Item::Scalar { tag, value: Scalar::Bytes(octets@) }),
    {
        let ghost before = self.buf@;
        let len = octets.len() as u64;
        let selector = select_uint(len);
        put_head(&mut self.buf, tag, 16 + selector);
        put_le(&mut self.buf, len, width_of(selector));
        put_slice(&mut self.buf, octets);
        let ghost item = Item::Scalar { tag, value: Scalar::Bytes(octets@) };
        proof {
            assert(self.buf@ =~= before + encode_item(item));
        }
        self.note(Ghost(before), Ghost(item));
    }

    /// Writes a UTF-8 string.
    pub fn put_utf8(&mut self, tag: Tag, text: &str)
        requires
            old(self).wf(),
        ensures
            final(self).wf(),
            final(self)@ == old(self)@.push(Item::Scalar { tag, value: Scalar::Utf8(text@) }),
    {
        let ghost before = self.buf@;
        let octets = text.as_bytes();
        let len = octets.len() as u64;
        let selector = select_uint(len);
        put_head(&mut self.buf, tag, 12 + selector);
        put_le(&mut self.buf, len, width_of(selector));
        put_slice(&mut self.buf, octets);
        let ghost item = Item::Scalar { tag, value: Scalar::Utf8(text@) };
        proof {
            assert(self.buf@ =~= before + encode_item(item));
        }
        self.note(Ghost(before), Ghost(item));
    }

    /// Writes a value of any kind, containers with all that they hold.
    pub fn write_value(&mut self, tag: Tag, value: &Value)
        requires
            old(self).wf(),
        ensures
            final(self).wf(),
            final(self)@ == old(self)@ + value_items(tag, *value),
        decreases *value,
    {
        let ghost before = self@;
        match value {
            Value::Int(v) => self.put_int(tag, *v),
            Value::Uint(v) => self.put_uint(tag, *v),
            Value::Bool(v) => self.put_bool(tag, *v),
            Value::Float32Bits(v) => self.put_float32_bits(tag, *v),
            Value::Float64Bits(v) => self.put_float64_bits(tag, *v),
            Value::Utf8(v) => self.put_utf8(tag, v.as_str()),
            Value::Bytes(v) => self.put_bytes(tag, v.as_slice()),
            Value::Null => self.put_null(tag),
            Value::Structure(members) => {
                self.start_container(tag, ContainerKind::Structure);
                self.write_members(members);
                self.end_container();
            },
            Value::List(members) => {
                self.start_container(tag, ContainerKind::List);
                self.write_members(members);
                self.end_container();
            },
            Value::Array(members) => {
                self.start_container(tag, ContainerKind::Array);
                self.write_array(members);
                self.end_container();
            },
        }
        proof {
            assert(self@ =~= before + value_items(tag, *value));
        }
    }

    fn write_members(&mut self, members: &Vec<(Tag, Value)>)
        requires
            old(self).wf(),
        ensures
            final(self).wf(),
            final(self)@ == old(self)@ + member_items(members@),
        decreases *members,
    {
        let ghost before = self@;
        let mut i: usize = 0;
        proof {
            assert(members@.subrange(0, 0).len() == 0);
            assert(self@ =~= before + member_items(members@.subrange(0, 0)));
        }
        while i < members.len()
            invariant
                i <= members@.len(),
                self.wf(),
                self@ == before + member_items(members@.subrange(0, i as int)),
            decreases members@.len() - i,
        {
            let ghost so_far = self@;
            let member = &members[i];
            proof {
                let longer = members@.subrange(0, i + 1);
                assert(longer.subrange(0, longer.len() - 1) =~= members@.subrange(0, i as int));
                assert(longer[longer.len() - 1] == *member);
                assert(decreases_to!(*members => members@[i as int]));
                assert(decreases_to!(*member => member.1));
            }
            self.write_value(member.0, &member.1);
            proof {
                assert(self@ =~= before + member_items(members@.subrange(0, i + 1)));
            }
            i = i + 1;
        }
        proof {
            assert(members@.subrange(0, i as int) =~= members@);
        }
    }

    fn write_array(&mut self, members: &Vec<Value>)
        requires
            old(self).wf(),
        ensures
            final(self).wf(),
            final(self)@ == old(self)@ + array_items(members@),
        decreases *members,
    {
        let ghost before = self@;
        let mut i: usize = 0;
        proof {
            assert(members@.subrange(0, 0).len() == 0);
            assert(self@ =~= before + array_items(members@.subrange(0, 0)));
        }
        while i < members.len()
            invariant
                i <= members@.len(),
                self.wf(),
                self@ == before + array_items(members@.subrange(0, i as int)),
            decreases members@.len() - i,
        {
            let member = &members[i];
            proof {
                let longer = members@.subrange(0, i + 1);
                assert(longer.subrange(0, longer.len() - 1) =~= members@.subrange(0, i as int));
                assert(longer[longer.len() - 1] == *member);
                assert(decreases_to!(*members => members@[i as int]));
            }
            self.write_value(Tag::Anonymous, member);
            proof {
                assert(self@ =~= before + array_items(members@.subrange(0, i + 1)));
            }
            i = i + 1;
        }
        proof {
            assert(members@.subrange(0, i as int) =~= members@);
        }
    }
}

/// The bytes of an anonymous element under another tag.
pub open spec fn retagged(tag: Tag, element: Seq<u8>) -> Seq<u8> {
    seq![control(tag, element[0] as int)] + tag_bytes(tag) + element.skip(1)
}

/// Appends an anonymous element, already encoded, under another tag.
pub fn put_preencoded(buf: &mut Vec<u8>, tag: Tag, element: &[u8])
    requires
        element@.len() > 0,
        element@[0] < 32,
    ensures
        final(buf)@ == old(buf)@ + retagged(tag, element@),
{
    put_head(buf, tag, element[0]);
    put_slice(buf, vstd::slice::slice_subrange(element, 1, element.len()));
    proof {
        assert(element@.subrange(1, element@.len() as int) =~= element@.skip(1));
        assert(buf@ =~= old(buf)@ + retagged(tag, element@));
    }
}

/// Values are written as they are built: scalars as one item, containers as their
/// start under the tag, their members in order, and their end. Members of
/// structures and lists keep their tags, those of arrays have none.
pub proof fn law_value_items(
    tag: Tag,
    members: Vec<(Tag, Value)>,
    values: Vec<Value>,
    number: u64,
    flag: bool,
)
    ensures
        value_items(tag, Value::Uint(number)) == seq![
            Item::Scalar { tag, value: Scalar::Uint(number) },
        ],
        value_items(tag, Value::Bool(flag)) == seq![
            Item::Scalar { tag, value: Scalar::Bool(flag) },
        ],
        value_items(tag, Value::Null) == seq![Item::Scalar { tag, value: Scalar::Null }],
        value_items(tag, Value::Structure(members)) == seq![
            Item::Start { tag, kind: ContainerKind::Structure },
        ] + member_items(members@) + seq![Item::End],
        value_items(tag, Value::List(members)) == seq![
            Item::Start { tag, kind: ContainerKind::List },
        ] + member_items(members@) + seq![Item::End],
        value_items(tag, Value::Array(values)) == seq![
            Item::Start { tag, kind: ContainerKind::Array },
        ] + array_items(values@) + seq![Item::End],
{
}

/// Members are written one behind the other.
pub proof fn law_members_in_order(
    members: Seq<(Tag, Value)>,
    values: Seq<Value>,
    tag: Tag,
    value: Value,
)
    ensures
        member_items(members.push((tag, value))) == member_items(members) + value_items(tag, value),
        array_items(values.push(value)) == array_items(values) + value_items(
            Tag::Anonymous,
            value,
        ),
        member_items(Seq::empty()) == Seq::<Item>::empty(),
        array_items(Seq::empty()) == Seq::<Item>::empty(),
{
    let longer = members.push((tag, value));
    assert(longer.subrange(0, longer.len() - 1) =~= members);
    let more = values.push(value);
    assert(more.subrange(0, more.len() - 1) =~= values);
}

/// An anonymous element gets a context tag by 32 in its control octet and the tag
/// behind it; its other bytes stay.
pub proof fn law_retagged(t: u8, element: Seq<u8>)
    requires
        element.len() > 0,
        element[0] < 32,
    ensures
        retagged(Tag::Context(t), element) == seq![(32 + element[0]) as u8, t] + element.skip(1),
        retagged(Tag::Anonymous, element) == element,
{
    reveal_with_fuel(le_bytes, 2);
    assert(retagged(Tag::Context(t), element) =~= seq![(32 + element[0]) as u8, t]
        + element.skip(1));
    assert(retagged(Tag::Anonymous, element) =~= element);
}

} // verus!
