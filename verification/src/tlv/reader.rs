//! Reading TLV element by element.

use crate::tlv::laws::{lemma_le_value_bound, lemma_pow256_values};
use crate::tlv::{
    decode_all, decode_front, field_width, le_value, payload_value, pow256, string_payload,
    tag_value, tag_width, ContainerKind, Element, Front, Payload, Tag, TlvError, Value,
};
use vstd::prelude::*;
use vstd::slice::{slice_subrange, slice_to_vec};
use vstd::utf8::{decode_utf8, valid_utf8};

verus! {

/// A cursor over a TLV stream.
pub struct TlvReader<'a> {
    bytes: &'a [u8],
    pos: usize,
}

impl<'a> View for TlvReader<'a> {
    type V = Seq<u8>;

    closed spec fn view(&self) -> Seq<u8> {
        self.bytes@.skip(self.pos as int)
    }
}

/// Calls `String::from_utf8`: text for bytes that are valid UTF-8, nothing for
/// others.
#[verifier::external_body]
fn text_from_utf8(octets: Vec<u8>) -> (text: Option<String>)
    ensures
        text is Some <==> valid_utf8(octets@),
        text matches Some(s) ==> s@ == decode_utf8(octets@),
{
    match String::from_utf8(octets) {
        Ok(text) => Some(text),
        Err(_) => None,
    }
}

/// Reads `width` bytes from `start` on as a little-endian number.
pub fn read_le(bytes: &[u8], start: usize, width: usize) -> (value: u64)
    requires
        width <= 8,
        start + width <= bytes@.len(),
    ensures
        value == le_value(bytes@.subrange(start as int, start + width)),
        value < pow256(width as nat),
{
    let mut value: u64 = 0;
    let mut i: usize = width;
    let total: usize = bytes.len();
    proof {
        assert(bytes@.subrange(start + width, start + width).len() == 0);
    }
    while i > 0
        invariant
            i <= width <= 8,
            start + width <= bytes@.len(),
            total == bytes@.len(),
            value == le_value(bytes@.subrange(start + i, start + width)),
        decreases i,
    {
        let ghost tail = bytes@.subrange(start + i, start + width);
        let ghost longer = bytes@.subrange(start + i - 1, start + width);
        proof {
            lemma_le_value_bound(tail);
            reveal_with_fuel(pow256, 9);
            assert(longer.skip(1) =~= tail);
            assert(longer[0] == bytes@[start + i - 1]);
        }
        i = i - 1;
        value = value * 256 + bytes[start + i] as u64;
    }
    proof {
        lemma_le_value_bound(bytes@.subrange(start as int, start + width));
    }
    value
}

fn read_width(selector: u8) -> (width: usize)
    requires
        selector < 4,
    ensures
        width == field_width(selector as int),
{
    if selector == 0 {
        1
    } else if selector == 1 {
        2
    } else if selector == 2 {
        4
    } else {
        8
    }
}

fn read_tag_width(form: u8) -> (width: usize)
    requires
        form < 8,
    ensures
        width == tag_width(form as int),
        width <= 8,
{
    if form == 0 {
        0
    } else if form == 1 {
        1
    } else if form == 2 || form == 4 {
        2
    } else if form == 3 || form == 5 {
        4
    } else if form == 6 {
        6
    } else {
        8
    }
}

fn read_tag(form: u8, bytes: &[u8], start: usize) -> (tag: Tag)
    requires
        form < 8,
        start + tag_width(form as int) <= bytes@.len(),
    ensures
        tag == tag_value(
            form as int,
            bytes@.subrange(start as int, start + tag_width(form as int)),
        ),
{
    let ghost whole = bytes@.subrange(start as int, start + tag_width(form as int));
    let total: usize = bytes.len();
    proof {
        lemma_pow256_values();
        assert(total == bytes@.len());
    }
    if form == 0 {
        Tag::Anonymous
    } else if form == 1 {
        Tag::Context(read_le(bytes, start, 1) as u8)
    } else if form == 2 {
        Tag::CommonProfile2(read_le(bytes, start, 2) as u16)
    } else if form == 3 {
        Tag::CommonProfile4(read_le(bytes, start, 4) as u32)
    } else if form == 4 {
        Tag::ImplicitProfile2(read_le(bytes, start, 2) as u16)
    } else if form == 5 {
        Tag::ImplicitProfile4(read_le(bytes, start, 4) as u32)
    } else if form == 6 {
        proof {
            assert(whole.subrange(0, 2) =~= bytes@.subrange(start as int, start + 2));
            assert(whole.subrange(2, 4) =~= bytes@.subrange(start + 2, start + 2 + 2));
            assert(whole.subrange(4, 6) =~= bytes@.subrange(start + 4, start + 4 + 2));
        }
        Tag::FullyQualified6 {
            vendor: read_le(bytes, start, 2) as u16,
            profile: read_le(bytes, start + 2, 2) as u16,
            tag: read_le(bytes, start + 4, 2) as u16,
        }
    } else {
        proof {
            assert(whole.subrange(0, 2) =~= bytes@.subrange(start as int, start + 2));
            assert(whole.subrange(2, 4) =~= bytes@.subrange(start + 2, start + 2 + 2));
            assert(whole.subrange(4, 8) =~= bytes@.subrange(start + 4, start + 4 + 4));
        }
        Tag::FullyQualified8 {
            vendor: read_le(bytes, start, 2) as u16,
            profile: read_le(bytes, start + 2, 2) as u16,
            tag: read_le(bytes, start + 4, 4) as u32,
        }
    }
}

/// The signed number that `width` bytes with the unsigned value `raw` stand for.
fn to_signed(raw: u64, width: usize) -> (value: i64)
    requires
        width == 1 || width == 2 || width == 4 || width == 8,
        raw < pow256(width as nat),
    ensures
        value == (if 2 * raw < pow256(width as nat) {
            raw as int
        } else {
            raw - pow256(width as nat)
        }),
{
    proof {
        lemma_pow256_values();
    }
    let modulus: i128 = if width == 1 {
        0x100
    } else if width == 2 {
        0x1_0000
    } else if width == 4 {
        0x1_0000_0000
    } else {
        0x1_0000_0000_0000_0000
    };
    if 2 * (raw as i128) < modulus {
        raw as i64
    } else {
        (raw as i128 - modulus) as i64
    }
}

/// The end of the string whose length field of `width` bytes starts at `start`.
fn string_end(bytes: &[u8], start: usize, width: usize) -> (end: Option<usize>)
    requires
        start <= bytes@.len(),
        width <= 8,
    ensures
        match string_payload(bytes@.skip(start as int), width as nat) {
            None => end is None,
            Some(octets) => {
                &&& end matches Some(e)
                &&& start + width <= e <= bytes@.len()
                &&& e - start - width == octets.len()
                &&& octets == bytes@.subrange(start + width, e as int)
            },
        },
{
    let ghost rest = bytes@.skip(start as int);
    if bytes.len() - start < width {
        return None;
    }
    let len = read_le(bytes, start, width);
    proof {
        assert(rest.take(width as int) =~= bytes@.subrange(start as int, start + width));
    }
    let room: usize = bytes.len() - start - width;
    if (room as u64) < len {
        return None;
    }
    let end: usize = start + width + len as usize;
    proof {
        assert(rest.subrange(width as int, width + len) =~= bytes@.subrange(
            start + width,
            end as int,
        ));
    }
    Some(end)
}

/// Reads the payload of an element of type `kind` and says where it ends.
fn read_payload(kind: u8, bytes: &[u8], start: usize) -> (r: Result<(Value, usize), TlvError>)
    requires
        kind <= 20,
        start <= bytes@.len(),
    ensures
        match payload_value(kind as int, bytes@.skip(start as int)) {
            Payload::Fault(e) => r == Err::<(Value, usize), TlvError>(e),
            Payload::Holds(value, size) => {
                &&& r matches Ok(v)
                &&& v.0@ == value
                &&& v.1 == start + size
                &&& start + size <= bytes@.len()
            },
        },
{
    let ghost rest = bytes@.skip(start as int);
    let width = read_width(kind % 4);
    let room: usize = bytes.len() - start;
    proof {
        lemma_pow256_values();
        if rest.len() >= width {
            assert(rest.take(width as int) =~= bytes@.subrange(start as int, start + width));
        }
        if rest.len() >= 4 {
            assert(rest.take(4) =~= bytes@.subrange(start as int, start + 4));
        }
        if rest.len() >= 8 {
            assert(rest.take(8) =~= bytes@.subrange(start as int, start + 8));
        }
    }
    if kind < 4 {
        if room < width {
            return Err(TlvError::UnexpectedEof);
        }
        let raw = read_le(bytes, start, width);
        Ok((Value::Int(to_signed(raw, width)), start + width))
    } else if kind < 8 {
        if room < width {
            return Err(TlvError::UnexpectedEof);
        }
        Ok((Value::Uint(read_le(bytes, start, width)), start + width))
    } else if kind == 8 {
        Ok((Value::Bool(false), start))
    } else if kind == 9 {
        Ok((Value::Bool(true), start))
    } else if kind == 10 {
        if room < 4 {
            return Err(TlvError::UnexpectedEof);
        }
        Ok((Value::Float32Bits(read_le(bytes, start, 4) as u32), start + 4))
    } else if kind == 11 {
        if room < 8 {
            return Err(TlvError::UnexpectedEof);
        }
        Ok((Value::Float64Bits(read_le(bytes, start, 8)), start + 8))
    } else if kind < 16 {
        match string_end(bytes, start, width) {
            None => Err(TlvError::UnexpectedEof),
            Some(end) => match text_from_utf8(
                slice_to_vec(slice_subrange(bytes, start + width, end)),
            ) {
                None => Err(TlvError::InvalidUtf8),
                Some(text) => Ok((Value::Utf8(text), end)),
            },
        }
    } else if kind < 20 {
        match string_end(bytes, start, width) {
            None => Err(TlvError::UnexpectedEof),
            Some(end) => {
                let octets = slice_to_vec(slice_subrange(bytes, start + width, end));
                Ok((Value::Bytes(octets), end))
            },
        }
    } else {
        Ok((Value::Null, start))
    }
}

impl<'a> TlvReader<'a> {
    /// A reader at the start of `bytes`.
    pub fn new(bytes: &'a [u8]) -> (reader: TlvReader<'a>)
        ensures
            reader@ == bytes@,
            reader.wf(),
    {
        let reader = TlvReader { bytes, pos: 0 };
        proof {
            assert(reader@ =~= bytes@);
        }
        reader
    }

    /// The cursor stands inside the input or at its end.
    pub closed spec fn wf(&self) -> bool {
        self.pos <= self.bytes@.len()
    }

    /// Reads the next element. At the end of the input there is none; on bytes
    /// that are no element the reader stays where it is.
    pub fn next(&mut self) -> (r: Result<Option<Element>, TlvError>)
        requires
            old(self).wf(),
        ensures
            final(self).wf(),
            match decode_front(old(self)@) {
                Front::Empty => r == Ok::<Option<Element>, TlvError>(None) && final(self)@ == old(
                    self,
                )@,
                Front::Fault(e) => r == Err::<Option<Element>, TlvError>(e) && final(self)@ == old(
                    self,
                )@,
                Front::Element(item, size) => {
                    &&& r matches Ok(Some(element))
                    &&& element@ == item
                    &&& 0 < size <= old(self)@.len()
                    &&& final(self)@ == old(self)@.skip(size as int)
                },
            },
    {
        let bytes = self.bytes;
        let pos = self.pos;
        let ghost rest = bytes@.skip(pos as int);
        if pos == bytes.len() {
            return Ok(None);
        }
        let control = bytes[pos];
        let form = control / 32;
        let kind = control % 32;
        proof {
            assert(rest[0] == control);
        }
        if kind > 24 || (kind == 24 && form != 0) {
            return Err(TlvError::InvalidControl(control));
        }
        let tag_len = read_tag_width(form);
        if bytes.len() - pos < 1 + tag_len {
            return Err(TlvError::UnexpectedEof);
        }
        let body: usize = pos + 1 + tag_len;
        proof {
            assert(rest.subrange(1, 1 + tag_len) =~= bytes@.subrange(pos + 1, pos + 1 + tag_len));
            assert(rest.skip(1 + tag_len) =~= bytes@.skip(body as int));
        }
        let tag = read_tag(form, bytes, pos + 1);
        if kind == 24 {
            self.pos = body;
            proof {
                assert(self@ =~= rest.skip(1));
            }
            return Ok(Some(Element::ContainerEnd));
        }
        if kind > 20 {
            self.pos = body;
            proof {
                assert(self@ =~= rest.skip(1 + tag_len));
            }
            let kind = if kind == 21 {
                ContainerKind::Structure
            } else if kind == 22 {
                ContainerKind::Array
            } else {
                ContainerKind::List
            };
            return Ok(Some(Element::ContainerStart { tag, kind }));
        }
        match read_payload(kind, bytes, body) {
            Err(e) => Err(e),
            Ok((value, end)) => {
                self.pos = end;
                proof {
                    assert(self@ =~= rest.skip(end - pos));
                }
                Ok(Some(Element::Scalar { tag, value }))
            },
        }
    }
}

/// All elements of a stream, and what stands behind them.
pub fn read_all(bytes: &[u8]) -> (r: (Vec<Element>, Option<TlvError>))
    ensures
        r.0@.map_values(|e: Element| e@) == decode_all(bytes@).items,
        r.1 == decode_all(bytes@).fault,
{
    let mut reader = TlvReader::new(bytes);
    let mut elements: Vec<Element> = Vec::new();
    let ghost all = decode_all(bytes@);
    proof {
        assert(elements@.map_values(|e: Element| e@) + all.items =~= all.items);
    }
    loop
        invariant
            reader.wf(),
            all == decode_all(bytes@),
            elements@.map_values(|e: Element| e@) + decode_all(reader@).items == all.items,
            decode_all(reader@).fault == all.fault,
        decreases reader@.len(),
    {
        let ghost before = reader@;
        let ghost read = elements@;
        match reader.next() {
            Err(e) => {
                proof {
                    assert(decode_all(before).items =~= Seq::empty());
                    assert(elements@.map_values(|e: Element| e@) =~= all.items);
                }
                return (elements, Some(e));
            },
            Ok(None) => {
                proof {
                    assert(decode_all(before).items =~= Seq::empty());
                    assert(elements@.map_values(|e: Element| e@) =~= all.items);
                }
                return (elements, None);
            },
            Ok(Some(element)) => {
                elements.push(element);
                proof {
                    assert(decode_all(before).items =~= seq![element@] + decode_all(reader@).items);
                    assert(elements@.map_values(|e: Element| e@) =~= read.map_values(
                        |e: Element| e@,
                    ).push(element@));
                    assert(elements@.map_values(|e: Element| e@) + decode_all(reader@).items
                        =~= read.map_values(|e: Element| e@) + decode_all(before).items);
                }
            },
        }
    }
}

} // verus!
