//! The shape that the responses of the commissioning clusters share: a status
//! under tag 0, text under tag 1 and, for some, a signed number under tag 2.

use crate::tlv::members::{
    element_int, element_uint, element_utf8, first_fault, int_at, int_field, items_of,
    lemma_fault_push, lemma_field_push, lemma_first_fault_prefix, lemma_next_member,
    lemma_written_structure, open_structure, opening, optional, structure, uint_at, uint_field,
    utf8_at, utf8_field, Ending, Opened, Opening,
};
use crate::tlv::{at, decode_all, Item, Scalar};
use vstd::prelude::*;
use vstd::utf8::encode_utf8;

verus! {

/// The fields of a response.
pub struct StatusFields {
    /// The status; zero for success.
    pub status: u8,
    /// Text for an operator.
    pub debug_text: Option<String>,
    /// A number that the platform gives.
    pub error_value: Option<i32>,
}

/// The model of the fields of a response.
#[verifier::ext_equal]
pub struct StatusView {
    /// The status.
    pub status: u8,
    /// The text.
    pub debug_text: Option<Seq<char>>,
    /// The number.
    pub error_value: Option<i32>,
}

/// The characters of an optional text.
pub open spec fn text_view(text: Option<String>) -> Option<Seq<char>> {
    match text {
        Some(t) => Some(t@),
        None => None,
    }
}

impl View for StatusFields {
    type V = StatusView;

    open spec fn view(&self) -> StatusView {
        StatusView {
            status: self.status,
            debug_text: text_view(self.debug_text),
            error_value: self.error_value,
        }
    }
}

/// The objection against a member: a field occurs twice, the status does not
/// fit in a byte, or the number does not fit in 32 bits.
pub open spec fn status_rule(valued: bool, before: Seq<Item>, item: Item) -> Option<()> {
    if uint_at(item, 0) matches Some(v) && (uint_field(before, 0) is Some || v > u8::MAX) {
        Some(())
    } else if utf8_at(item, 1) is Some && utf8_field(before, 1) is Some {
        Some(())
    } else if valued && (int_at(item, 2) matches Some(v) && (int_field(before, 2) is Some || v
        < i32::MIN || v > i32::MAX)) {
        Some(())
    } else {
        None
    }
}

/// What a response holds; nothing if it is malformed. Members that are no field
/// are skipped.
pub open spec fn status_response(valued: bool, tlv: Seq<u8>) -> Option<StatusView> {
    match opening(decode_all(tlv)) {
        Opening::Members(members, ending) => {
            let rule = |before: Seq<Item>, item: Item| status_rule(valued, before, item);
            if first_fault(members, rule) is Some || ending != Ending::Closed {
                None
            } else {
                match uint_field(members, 0) {
                    None => None,
                    Some(status) => Some(
                        StatusView {
                            status: status as u8,
                            debug_text: utf8_field(members, 1),
                            error_value: if valued {
                                match int_field(members, 2) {
                                    Some(v) => Some(v as i32),
                                    None => None,
                                }
                            } else {
                                None
                            },
                        },
                    ),
                }
            }
        },
        _ => None,
    }
}

/// Decodes a response; with `valued` the number under tag 2 counts as a field.
pub fn decode_status_response(valued: bool, tlv: &[u8]) -> (fields: Option<StatusFields>)
    ensures
        match status_response(valued, tlv@) {
            Some(view) => fields matches Some(f) && f@ == view,
            None => fields is None,
        },
{
    let (members, ending) = match open_structure(tlv) {
        Opened::Members(members, ending) => (members, ending),
        _ => {
            return None;
        },
    };
    let ghost items = items_of(members@);
    let ghost rule = |before: Seq<Item>, item: Item| status_rule(valued, before, item);
    let mut status: Option<u8> = None;
    let mut debug_text: Option<String> = None;
    let mut error_value: Option<i32> = None;
    let mut i: usize = 0;
    while i < members.len()
        invariant
            i <= members@.len(),
            items == items_of(members@),
            rule == (|before: Seq<Item>, item: Item| status_rule(valued, before, item)),
            opening(decode_all(tlv@)) == Opening::Members(items, ending),
            first_fault(items.take(i as int), rule) is None,
            match status {
                Some(v) => uint_field(items.take(i as int), 0) == Some(v as u64),
                None => uint_field(items.take(i as int), 0) is None,
            },
            text_view(debug_text) == utf8_field(items.take(i as int), 1),
            valued ==> match error_value {
                Some(v) => int_field(items.take(i as int), 2) == Some(v as i64),
                None => int_field(items.take(i as int), 2) is None,
            },
            !valued ==> error_value is None,
        decreases members@.len() - i,
    {
        proof {
            lemma_next_member(members@, i as int);
            if first_fault(items.take(i + 1), rule) is Some {
                lemma_first_fault_prefix(items, i + 1, rule);
            }
        }
        let element = &members[i];
        if let Some(v) = element_uint(element, 0) {
            if status.is_some() || v > 255 {
                return None;
            }
            status = Some(v as u8);
        } else if let Some(text) = element_utf8(element, 1) {
            if debug_text.is_some() {
                return None;
            }
            debug_text = Some(text.clone());
        } else if valued {
            if let Some(v) = element_int(element, 2) {
                if error_value.is_some() || v < -0x8000_0000 || v > 0x7FFF_FFFF {
                    return None;
                }
                error_value = Some(v as i32);
            }
        }
        i = i + 1;
    }
    proof {
        assert(items.take(i as int) =~= items);
    }
    if ending != Ending::Closed {
        return None;
    }
    match status {
        None => None,
        Some(status) => Some(StatusFields { status, debug_text, error_value }),
    }
}

/// The members of a response.
pub open spec fn status_items(view: StatusView) -> Seq<Item> {
    seq![at(0, Scalar::Uint(view.status as u64))] + optional(
        1,
        match view.debug_text {
            Some(text) => Some(Scalar::Utf8(text)),
            None => None,
        },
    ) + optional(
        2,
        match view.error_value {
            Some(v) => Some(Scalar::Int(v as i64)),
            None => None,
        },
    )
}

/// What one more member adds to a response.
proof fn lemma_status_push(valued: bool, members: Seq<Item>, item: Item)
    ensures
        first_fault(
            members.push(item),
            |before: Seq<Item>, item: Item| status_rule(valued, before, item),
        ) == (match first_fault(
            members,
            |before: Seq<Item>, item: Item| status_rule(valued, before, item),
        ) {
            Some(e) => Some(e),
            None => status_rule(valued, members, item),
        }),
        uint_field(members.push(item), 0) == (match uint_at(item, 0) {
            Some(v) => Some(v),
            None => uint_field(members, 0),
        }),
        utf8_field(members.push(item), 1) == (match utf8_at(item, 1) {
            Some(v) => Some(v),
            None => utf8_field(members, 1),
        }),
        int_field(members.push(item), 2) == (match int_at(item, 2) {
            Some(v) => Some(v),
            None => int_field(members, 2),
        }),
{
    lemma_fault_push(
        members,
        item,
        |before: Seq<Item>, item: Item| status_rule(valued, before, item),
    );
    lemma_field_push(members, item, |i: Item| uint_at(i, 0));
    lemma_field_push(members, item, |i: Item| utf8_at(i, 1));
    lemma_field_push(members, item, |i: Item| int_at(i, 2));
}

/// A response decodes to the status, text and number that it was written with;
/// the number counts only where it is a field.
pub proof fn law_status_roundtrip(valued: bool, view: StatusView)
    requires
        view.debug_text matches Some(text) ==> encode_utf8(text).len() <= u64::MAX,
    ensures
        status_response(valued, structure(status_items(view))) == Some(
            StatusView {
                error_value: if valued {
                    view.error_value
                } else {
                    None
                },
                ..view
            },
        ),
{
    let nothing = Seq::<Item>::empty();
    let first = at(0, Scalar::Uint(view.status as u64));
    let one = nothing.push(first);
    lemma_status_push(valued, nothing, first);
    let two = match view.debug_text {
        Some(text) => one.push(at(1, Scalar::Utf8(text))),
        None => one,
    };
    if let Some(text) = view.debug_text {
        lemma_status_push(valued, one, at(1, Scalar::Utf8(text)));
    }
    let three = match view.error_value {
        Some(v) => two.push(at(2, Scalar::Int(v as i64))),
        None => two,
    };
    if let Some(v) = view.error_value {
        lemma_status_push(valued, two, at(2, Scalar::Int(v as i64)));
    }
    assert(three =~= status_items(view));
    lemma_written_structure(three);
}

/// A response that is accepted is a closed structure that holds its status, a
/// byte, under tag 0, its text under tag 1 and, where it has one, its number of 32
/// bits under tag 2.
pub proof fn law_status_fields(valued: bool, tlv: Seq<u8>)
    ensures
        status_response(valued, tlv) matches Some(view) ==> {
            &&& opening(decode_all(tlv)) matches Opening::Members(members, ending)
            &&& ending == Ending::Closed
            &&& uint_field(members, 0) == Some(view.status as u64)
            &&& utf8_field(members, 1) == view.debug_text
            &&& !valued ==> view.error_value is None
            &&& valued ==> int_field(members, 2) == (match view.error_value {
                Some(v) => Some(v as i64),
                None => None,
            })
        },
{
    if let Opening::Members(members, _) = opening(decode_all(tlv)) {
        if status_response(valued, tlv) is Some {
            lemma_status_fits(valued, members);
        }
    }
}

/// Without an objection status and number fit.
proof fn lemma_status_fits(valued: bool, members: Seq<Item>)
    requires
        first_fault(
            members,
            |before: Seq<Item>, item: Item| status_rule(valued, before, item),
        ) is None,
    ensures
        uint_field(members, 0) matches Some(v) ==> v <= 0xFF,
        valued ==> (int_field(members, 2) matches Some(v) ==> -0x8000_0000 <= v <= 0x7FFF_FFFF),
    decreases members.len(),
{
    if members.len() > 0 {
        lemma_status_fits(valued, members.drop_last());
    }
}

/// A response without a status, one that does not end, and bytes that are no
/// anonymous structure are refused.
pub proof fn law_broken_status_is_refused(valued: bool, tlv: Seq<u8>)
    requires
        !(opening(decode_all(tlv)) matches Opening::Members(members, Ending::Closed) && uint_field(
            members,
            0,
        ) is Some),
    ensures
        status_response(valued, tlv) is None,
{
}

/// What a member of a response may not be: a second status or one above 255, a
/// second text, and, where it counts, a second number or one of more than 32 bits.
/// Everything else is let pass.
pub proof fn law_status_members(valued: bool, before: Seq<Item>, item: Item)
    ensures
        status_rule(valued, before, item) is Some <==> {
            ||| uint_at(item, 0) is Some && uint_field(before, 0) is Some
            ||| uint_at(item, 0) is Some && uint_at(item, 0)->Some_0 > 255
            ||| utf8_at(item, 1) is Some && utf8_field(before, 1) is Some
            ||| valued && int_at(item, 2) is Some && int_field(before, 2) is Some
            ||| valued && int_at(item, 2) is Some && !(-0x8000_0000 <= int_at(item, 2)->Some_0
                <= 0x7FFF_FFFF)
        },
{
}

/// A closed response whose members pass and which holds a status is accepted.
pub proof fn law_whole_status_is_accepted(valued: bool, tlv: Seq<u8>, members: Seq<Item>)
    requires
        opening(decode_all(tlv)) == Opening::Members(members, Ending::Closed),
        first_fault(
            members,
            |before: Seq<Item>, item: Item| status_rule(valued, before, item),
        ) is None,
        uint_field(members, 0) is Some,
    ensures
        status_response(valued, tlv) is Some,
{
}

} // verus!
