//! The status codes of the Interaction Model.

use crate::im::IM_REVISION;
use crate::tlv::members::{
    lemma_written_structure, opening, structure, uint_field, Ending, Opening,
};
use crate::tlv::{at, decode_all, encode_all, struct_start, Item, Scalar, Tag, TlvWriter};
use vstd::prelude::*;

verus! {

/// A status of the Interaction Model.
#[derive(Copy, Clone, Debug, PartialEq, Eq, Structural)]
#[non_exhaustive]
pub enum ImStatus {
    /// Success, code 0.
    Success,
    /// A failure with its code.
    Failure(u8),
}

/// The status with the given code.
pub open spec fn status_of(code: u8) -> ImStatus {
    if code == 0 {
        ImStatus::Success
    } else {
        ImStatus::Failure(code)
    }
}

/// The items of the message that answers a report with the given code.
pub open spec fn status_response_items(code: u8) -> Seq<Item> {
    seq![
        struct_start(),
        at(0, Scalar::Uint(code as u64)),
        at(0xFF, Scalar::Uint(IM_REVISION as u64)),
        Item::End,
    ]
}

impl ImStatus {
    /// The status with the given code.
    pub fn from_u8(code: u8) -> (status: Self)
        ensures
            status == status_of(code),
            status is Success <==> code == 0,
            status matches ImStatus::Failure(kept) ==> kept == code,
    {
        if code == 0x00 {
            ImStatus::Success
        } else {
            ImStatus::Failure(code)
        }
    }

    /// Whether the status is a success.
    pub fn is_success(self) -> (success: bool)
        ensures
            success == (self == ImStatus::Success),
    {
        match self {
            ImStatus::Success => true,
            ImStatus::Failure(_) => false,
        }
    }
}

/// Builds the message that answers a report with the given code; after a chunk
/// it solicits the next one.
pub fn build_status_response(code: u8) -> (message: Vec<u8>)
    ensures
        message@ == encode_all(status_response_items(code)),
{
    let mut w = TlvWriter::new();
    w.start_structure(Tag::Anonymous);
    w.put_uint(Tag::Context(0), code as u64);
    w.put_uint(Tag::Context(0xFF), IM_REVISION as u64);
    w.end_container();
    proof {
        assert(w@ =~= status_response_items(code));
    }
    w.finish()
}

/// Code 0 alone is a success; every other code is a failure that keeps it.
pub proof fn law_status_codes(code: u8)
    ensures
        status_of(code) is Success <==> code == 0,
        code != 0 ==> status_of(code) == ImStatus::Failure(code),
{
}

/// Who gets the answer to a report reads the code under tag 0 and revision 11
/// under tag 255.
pub proof fn law_status_response_readable(code: u8)
    ensures
        opening(decode_all(encode_all(status_response_items(code)))) matches Opening::Members(
            members,
            ending,
        ) && ending == Ending::Closed && uint_field(members, 0) == Some(code as u64) && uint_field(
            members,
            0xFF,
        ) == Some(11u64) && members.len() == 2,
{
    let inner = seq![
        Item::Scalar { tag: Tag::Context(0), value: Scalar::Uint(code as u64) },
        Item::Scalar { tag: Tag::Context(0xFF), value: Scalar::Uint(11) },
    ];
    lemma_written_structure(inner);
    assert(seq![struct_start()] + inner + seq![Item::End] =~= status_response_items(code));
    reveal_with_fuel(crate::tlv::members::last_field, 3);
}

} // verus!
