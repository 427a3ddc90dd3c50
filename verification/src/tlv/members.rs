//! The members of a structure that stands at the front of a stream.
//!
//! Cluster payloads are anonymous structures that are read from front to back.
//! What stands inside a container among the members is passed over with it.

use crate::tlv::laws::law_stream_roundtrip;
use crate::tlv::outline::{
    closes, lemma_outline_origin, lemma_outline_split, lemma_scalars, outline, tops,
};
use crate::tlv::{
    at, decode_all, decode_front, encodable, encode_all, struct_start, ContainerKind, Element, Front,
    Item, Scalar, Stream, Tag, TlvError, TlvReader, Value,
};
use vstd::prelude::*;

verus! {

/// What ends the members of a structure.
#[derive(Copy, Clone, Debug, PartialEq, Eq, Structural)]
pub enum Ending {
    /// An end of a container.
    Closed,
    /// The end of the input.
    Eof,
    /// Bytes that are no element.
    Fault(TlvError),
}

/// What stands at the front of a stream.
#[verifier::ext_equal]
pub enum Opening {
    /// Bytes that are no element.
    Fault(TlvError),
    /// Nothing, or something that is no start of an anonymous structure.
    NotStructure,
    /// An anonymous structure with these members.
    Members(Seq<Item>, Ending),
}

/// What stands at the front of a stream, as the reader hands it out.
pub enum Opened {
    /// Bytes that are no element.
    Fault(TlvError),
    /// Nothing, or something that is no start of an anonymous structure.
    NotStructure,
    /// An anonymous structure with these members.
    Members(Vec<Element>, Ending),
}

/// The models of a sequence of elements.
pub open spec fn items_of(elements: Seq<Element>) -> Seq<Item> {
    elements.map_values(|e: Element| e@)
}

impl View for Opened {
    type V = Opening;

    open spec fn view(&self) -> Opening {
        match *self {
            Opened::Fault(e) => Opening::Fault(e),
            Opened::NotStructure => Opening::NotStructure,
            Opened::Members(members, ending) => Opening::Members(items_of(members@), ending),
        }
    }
}

/// The members of a structure whose start has been read.
pub open spec fn members_of(rest: Stream) -> (Seq<Item>, Ending) {
    let (members, closed) = outline(rest.items, 0);
    (
        members,
        if closed {
            Ending::Closed
        } else {
            match rest.fault {
                Some(e) => Ending::Fault(e),
                None => Ending::Eof,
            }
        },
    )
}

/// What stands at the front of a stream.
pub open spec fn opening(stream: Stream) -> Opening {
    if stream.items.len() == 0 {
        match stream.fault {
            Some(e) => Opening::Fault(e),
            None => Opening::NotStructure,
        }
    } else if stream.items[0] == struct_start() {
        let (members, ending) = members_of(
            Stream { items: stream.items.skip(1), fault: stream.fault },
        );
        Opening::Members(members, ending)
    } else {
        Opening::NotStructure
    }
}

/// The first objection that `rule` has against a member, given the members
/// before it.
pub open spec fn first_fault<T, E>(
    members: Seq<T>,
    rule: spec_fn(Seq<T>, T) -> Option<E>,
) -> Option<E>
    decreases members.len(),
{
    if members.len() == 0 {
        None
    } else {
        match first_fault(members.drop_last(), rule) {
            Some(e) => Some(e),
            None => rule(members.drop_last(), members.last()),
        }
    }
}

/// What `pick` finds in the last member that it finds anything in.
pub open spec fn last_field<T>(members: Seq<Item>, pick: spec_fn(Item) -> Option<T>) -> Option<T>
    decreases members.len(),
{
    if members.len() == 0 {
        None
    } else {
        match pick(members.last()) {
            Some(v) => Some(v),
            None => last_field(members.drop_last(), pick),
        }
    }
}

/// The octet string of an item under a context tag.
pub open spec fn bytes_at(item: Item, tag: u8) -> Option<Seq<u8>> {
    match item {
        Item::Scalar { tag: Tag::Context(t), value: Scalar::Bytes(v) } => if t == tag {
            Some(v)
        } else {
            None
        },
        _ => None,
    }
}

/// The unsigned integer of an item under a context tag.
pub open spec fn uint_at(item: Item, tag: u8) -> Option<u64> {
    match item {
        Item::Scalar { tag: Tag::Context(t), value: Scalar::Uint(v) } => if t == tag {
            Some(v)
        } else {
            None
        },
        _ => None,
    }
}

/// The signed integer of an item under a context tag.
pub open spec fn int_at(item: Item, tag: u8) -> Option<i64> {
    match item {
        Item::Scalar { tag: Tag::Context(t), value: Scalar::Int(v) } => if t == tag {
            Some(v)
        } else {
            None
        },
        _ => None,
    }
}

/// The string of an item under a context tag.
pub open spec fn utf8_at(item: Item, tag: u8) -> Option<Seq<char>> {
    match item {
        Item::Scalar { tag: Tag::Context(t), value: Scalar::Utf8(v) } => if t == tag {
            Some(v)
        } else {
            None
        },
        _ => None,
    }
}

/// The octet string that the members hold under a context tag; the last one if
/// there are several.
pub open spec fn bytes_field(members: Seq<Item>, tag: u8) -> Option<Seq<u8>> {
    last_field(members, |i: Item| bytes_at(i, tag))
}

/// The unsigned integer that the members hold under a context tag.
pub open spec fn uint_field(members: Seq<Item>, tag: u8) -> Option<u64> {
    last_field(members, |i: Item| uint_at(i, tag))
}

/// The signed integer that the members hold under a context tag.
pub open spec fn int_field(members: Seq<Item>, tag: u8) -> Option<i64> {
    last_field(members, |i: Item| int_at(i, tag))
}

/// The string that the members hold under a context tag.
pub open spec fn utf8_field(members: Seq<Item>, tag: u8) -> Option<Seq<char>> {
    last_field(members, |i: Item| utf8_at(i, tag))
}

/// The octet string of an element under a context tag.
pub fn element_bytes(element: &Element, tag: u8) -> (found: Option<&Vec<u8>>)
    ensures
        match found {
            Some(v) => bytes_at(element@, tag) == Some(v@),
            None => bytes_at(element@, tag) is None,
        },
{
    match element {
        Element::Scalar { tag: Tag::Context(t), value: Value::Bytes(v) } => if *t == tag {
            Some(v)
        } else {
            None
        },
        _ => None,
    }
}

/// The unsigned integer of an element under a context tag.
pub fn element_uint(element: &Element, tag: u8) -> (found: Option<u64>)
    ensures
        found == uint_at(element@, tag),
{
    match element {
        Element::Scalar { tag: Tag::Context(t), value: Value::Uint(v) } => if *t == tag {
            Some(*v)
        } else {
            None
        },
        _ => None,
    }
}

/// The signed integer of an element under a context tag.
pub fn element_int(element: &Element, tag: u8) -> (found: Option<i64>)
    ensures
        found == int_at(element@, tag),
{
    match element {
        Element::Scalar { tag: Tag::Context(t), value: Value::Int(v) } => if *t == tag {
            Some(*v)
        } else {
            None
        },
        _ => None,
    }
}

/// The string of an element under a context tag.
pub fn element_utf8(element: &Element, tag: u8) -> (found: Option<&String>)
    ensures
        match found {
            Some(v) => utf8_at(element@, tag) == Some(v@),
            None => utf8_at(element@, tag) is None,
        },
{
    match element {
        Element::Scalar { tag: Tag::Context(t), value: Value::Utf8(v) } => if *t == tag {
            Some(v)
        } else {
            None
        },
        _ => None,
    }
}

/// The members up to and with member `k` are those before it and it.
pub proof fn lemma_next_member(elements: Seq<Element>, k: int)
    requires
        0 <= k < elements.len(),
    ensures
        items_of(elements).len() == elements.len(),
        items_of(elements).take(k + 1).drop_last() == items_of(elements).take(k),
        items_of(elements).take(k + 1).last() == elements[k]@,
        items_of(elements).take(k + 1).len() == k + 1,
{
    assert(items_of(elements).take(k + 1).drop_last() =~= items_of(elements).take(k));
}

/// An objection against a member is not overruled by later members.
pub proof fn lemma_first_fault_prefix<T, E>(
    members: Seq<T>,
    k: int,
    rule: spec_fn(Seq<T>, T) -> Option<E>,
)
    requires
        0 <= k <= members.len(),
        first_fault(members.take(k), rule) is Some,
    ensures
        first_fault(members, rule) == first_fault(members.take(k), rule),
    decreases members.len(),
{
    if k == members.len() {
        assert(members.take(k) =~= members);
    } else {
        assert(members.drop_last().take(k) =~= members.take(k));
        lemma_first_fault_prefix(members.drop_last(), k, rule);
    }
}

/// What a field holds, some member holds.
pub proof fn lemma_field_witness<T>(members: Seq<Item>, pick: spec_fn(Item) -> Option<T>)
    requires
        last_field(members, pick) is Some,
    ensures
        exists|i: int|
            0 <= i < members.len() && last_field(members, pick) == pick(#[trigger] members[i]),
    decreases members.len(),
{
    if pick(members.last()) is Some {
        assert(last_field(members, pick) == pick(members[members.len() - 1]));
    } else {
        lemma_field_witness(members.drop_last(), pick);
        let i = choose|i: int|
            0 <= i < members.drop_last().len() && last_field(members.drop_last(), pick) == pick(
                #[trigger] members.drop_last()[i],
            );
        assert(members[i] == members.drop_last()[i]);
    }
}

/// No octet string of a stream is longer than the stream.
pub proof fn lemma_octets_bound(bytes: Seq<u8>)
    ensures
        forall|i: int, tag: u8|
            0 <= i < decode_all(bytes).items.len() && #[trigger] bytes_at(
                decode_all(bytes).items[i],
                tag,
            ) is Some ==> bytes_at(decode_all(bytes).items[i], tag)->0.len() <= bytes.len(),
    decreases bytes.len(),
{
    match decode_front(bytes) {
        Front::Element(item, size) => if 0 < size <= bytes.len() {
            let rest = bytes.skip(size as int);
            lemma_octets_bound(rest);
            let all = decode_all(bytes).items;
            assert forall|i: int, tag: u8|
                0 <= i < all.len() && #[trigger] bytes_at(all[i], tag) is Some implies bytes_at(
                all[i],
                tag,
            )->0.len() <= bytes.len() by {
                if i > 0 {
                    assert(all[i] == decode_all(rest).items[i - 1]);
                } else {
                    assert(all[0] == item);
                }
            }
        },
        _ => {},
    }
}

/// No octet string among the members of a structure is longer than the stream.
pub proof fn lemma_field_bound(bytes: Seq<u8>, tag: u8)
    ensures
        opening(decode_all(bytes)) matches Opening::Members(members, _) ==> (bytes_field(
            members,
            tag,
        ) matches Some(v) ==> v.len() <= bytes.len()),
{
    if let Opening::Members(members, _) = opening(decode_all(bytes)) {
        if bytes_field(members, tag) is Some {
            lemma_octets_bound(bytes);
            lemma_field_witness(members, |i: Item| bytes_at(i, tag));
            let i = choose|i: int|
                0 <= i < members.len() && bytes_field(members, tag) == bytes_at(
                    #[trigger] members[i],
                    tag,
                );
            let j = lemma_outline_origin(decode_all(bytes).items.skip(1), 0, i);
            assert(members[i] == decode_all(bytes).items[j + 1]);
        }
    }
}

/// A written structure of whole fields is read back as its members.
pub proof fn lemma_written_outline(inner: Seq<Item>)
    requires
        closes(inner, 0),
        forall|i: int| 0 <= i < inner.len() ==> encodable(#[trigger] inner[i]),
    ensures
        opening(decode_all(structure(inner))) == Opening::Members(tops(inner, 0), Ending::Closed),
{
    let items = seq![struct_start()] + inner + seq![Item::End];
    assert forall|i: int| 0 <= i < items.len() implies encodable(#[trigger] items[i]) by {
        if 0 < i <= inner.len() {
            assert(items[i] == inner[i - 1]);
        }
    }
    law_stream_roundtrip(items);
    assert(items.skip(1) =~= inner + seq![Item::End]);
    lemma_outline_split(inner, 0, seq![Item::End]);
    assert(tops(inner, 0) + Seq::<Item>::empty() =~= tops(inner, 0));
}

/// A written structure of scalars is read back as its members.
pub proof fn lemma_written_structure(inner: Seq<Item>)
    requires
        forall|i: int|
            0 <= i < inner.len() ==> encodable(#[trigger] inner[i]) && inner[i] is Scalar,
    ensures
        opening(decode_all(structure(inner))) == Opening::Members(inner, Ending::Closed),
{
    lemma_scalars(inner);
    lemma_written_outline(inner);
}

/// The bytes of an anonymous structure.
pub open spec fn structure(inner: Seq<Item>) -> Seq<u8> {
    encode_all(seq![struct_start()] + inner + seq![Item::End])
}

/// The member for a value that may be absent.
pub open spec fn optional(tag: u8, value: Option<Scalar>) -> Seq<Item> {
    match value {
        Some(v) => seq![at(tag, v)],
        None => Seq::empty(),
    }
}

/// What one more member adds to a field.
pub proof fn lemma_field_push<T>(members: Seq<Item>, item: Item, pick: spec_fn(Item) -> Option<T>)
    ensures
        last_field(members.push(item), pick) == (match pick(item) {
            Some(v) => Some(v),
            None => last_field(members, pick),
        }),
{
    assert(members.push(item).drop_last() =~= members);
}

/// What one more member adds to the objections.
pub proof fn lemma_fault_push<T, E>(
    members: Seq<T>,
    item: T,
    rule: spec_fn(Seq<T>, T) -> Option<E>,
)
    ensures
        first_fault(members.push(item), rule) == (match first_fault(members, rule) {
            Some(e) => Some(e),
            None => rule(members, item),
        }),
{
    assert(members.push(item).drop_last() =~= members);
}

/// Reads the anonymous structure at the front of `tlv` up to its end.
pub fn open_structure(tlv: &[u8]) -> (opened: Opened)
    ensures
        opened@ == opening(decode_all(tlv@)),
{
    let mut reader = TlvReader::new(tlv);
    let ghost all = decode_all(tlv@);
    match reader.next() {
        Err(e) => {
            return Opened::Fault(e);
        },
        Ok(None) => {
            return Opened::NotStructure;
        },
        Ok(Some(Element::ContainerStart { tag, kind })) => {
            if tag != Tag::Anonymous || kind != ContainerKind::Structure {
                proof {
                    assert(all.items[0] == Item::Start { tag, kind });
                }
                return Opened::NotStructure;
            }
            proof {
                assert(all.items[0] == struct_start());
            }
        },
        Ok(Some(e)) => {
            proof {
                assert(all.items[0] == e@);
            }
            return Opened::NotStructure;
        },
    }
    let ghost rest = decode_all(reader@);
    let mut members: Vec<Element> = Vec::new();
    let mut depth: usize = 0;
    proof {
        assert(tlv@.len() == tlv.len());
        assert(all.items.skip(1) =~= rest.items);
        let found = outline(rest.items, 0).0;
        assert(items_of(members@) + found =~= found);
    }
    loop
        invariant
            reader.wf(),
            depth + reader@.len() <= tlv@.len() <= usize::MAX,
            rest.fault == decode_all(reader@).fault,
            outline(rest.items, 0) == (
                items_of(members@) + outline(decode_all(reader@).items, depth as nat).0,
                outline(decode_all(reader@).items, depth as nat).1,
            ),
            opening(all) == Opening::Members(members_of(rest).0, members_of(rest).1),
            all == decode_all(tlv@),
        decreases reader@.len(),
    {
        let ghost here = decode_all(reader@).items;
        let ghost old_members = members@;
        let element = match reader.next() {
            Err(e) => {
                proof {
                    assert(items_of(members@) + Seq::<Item>::empty() =~= items_of(members@));
                }
                return Opened::Members(members, Ending::Fault(e));
            },
            Ok(None) => {
                proof {
                    assert(items_of(members@) + Seq::<Item>::empty() =~= items_of(members@));
                }
                return Opened::Members(members, Ending::Eof);
            },
            Ok(Some(element)) => element,
        };
        proof {
            assert(here[0] == element@);
            assert(here.skip(1) =~= decode_all(reader@).items);
        }
        match element {
            Element::ContainerEnd => {
                if depth == 0 {
                    proof {
                        assert(items_of(members@) + Seq::<Item>::empty() =~= items_of(members@));
                    }
                    return Opened::Members(members, Ending::Closed);
                }
                depth = depth - 1;
            },
            _ => {
                let inner: bool = matches!(element, Element::ContainerStart { .. });
                if depth == 0 {
                    members.push(element);
                    proof {
                        assert(items_of(members@) =~= items_of(old_members).push(here[0]));
                        let found = outline(
                            here.skip(1),
                            if inner {
                                1
                            } else {
                                0
                            },
                        ).0;
                        assert(items_of(members@) + found =~= items_of(old_members) + (
                        seq![here[0]] + found));
                    }
                }
                if inner {
                    depth = depth + 1;
                }
            },
        }
    }
}

} // verus!
