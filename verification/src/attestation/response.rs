//! The signed attestation response of a device.

use crate::attestation::error::AttestationError;
use crate::crypto::{p256_fixed_signature_valid, verify_p256_fixed, DIGEST_INPUT_LIMIT};
use crate::noc::csr::to_32;
use crate::tlv::members::{
    bytes_at, bytes_field, element_bytes, element_uint, first_fault, items_of, lemma_fault_push,
    lemma_field_push, lemma_first_fault_prefix, lemma_next_member, lemma_written_outline,
    lemma_written_structure, open_structure, opening, structure, uint_at, uint_field, Ending,
    Opened, Opening,
};
use crate::tlv::outline::{closes, element_under, lemma_tops_concat, tops, under};
use crate::tlv::writer::put_slice;
use crate::tlv::{at, decode_all, encodable, Item, Scalar};
use vstd::prelude::*;
use vstd::slice::slice_to_vec;

verus! {

/// The decoded response to an attestation request.
#[derive(Debug, Clone)]
pub struct AttestationResponse {
    /// The attestation elements, still encoded.
    pub attestation_elements: Vec<u8>,
    /// The signature of the attestation key over the elements and the challenge
    /// of the session: 32 bytes of `r`, then 32 bytes of `s`.
    pub signature: [u8; 64],
}

/// Whether a device signed elements and challenge, one behind the other, with
/// its attestation key.
pub open spec fn dac_signature_valid(
    elements: Seq<u8>,
    challenge: Seq<u8>,
    dac_public_key: Seq<u8>,
    signature: Seq<u8>,
) -> bool {
    p256_fixed_signature_valid(dac_public_key, elements + challenge, signature)
}

/// Verifies the signature of a device's attestation key over elements and
/// challenge.
pub fn verify_dac_signed_elements(
    elements: &[u8],
    attestation_challenge: &[u8; 16],
    dac_public_key: &[u8],
    signature: &[u8; 64],
) -> (r: Result<(), AttestationError>)
    requires
        elements@.len() + 16 < DIGEST_INPUT_LIMIT,
    ensures
        r == (if dac_signature_valid(
            elements@,
            attestation_challenge@,
            dac_public_key@,
            signature@,
        ) {
            Ok::<(), AttestationError>(())
        } else {
            Err(AttestationError::BadResponseSignature)
        }),
        r is Ok ==> dac_public_key@.len() == 65 && dac_public_key@[0] == 4,
{
    let mut signed: Vec<u8> = slice_to_vec(elements);
    put_slice(&mut signed, attestation_challenge.as_slice());
    if verify_p256_fixed(dac_public_key, signed.as_slice(), signature.as_slice()) {
        Ok(())
    } else {
        Err(AttestationError::BadResponseSignature)
    }
}

/// Verifies the signature of an attestation response.
pub fn verify_attestation_response(
    response: &AttestationResponse,
    attestation_challenge: &[u8; 16],
    dac_public_key: &[u8],
) -> (r: Result<(), AttestationError>)
    requires
        response.attestation_elements@.len() + 16 < DIGEST_INPUT_LIMIT,
    ensures
        r == (if dac_signature_valid(
            response.attestation_elements@,
            attestation_challenge@,
            dac_public_key@,
            response.signature@,
        ) {
            Ok::<(), AttestationError>(())
        } else {
            Err(AttestationError::BadResponseSignature)
        }),
        r is Ok ==> dac_public_key@.len() == 65 && dac_public_key@[0] == 4,
{
    verify_dac_signed_elements(
        response.attestation_elements.as_slice(),
        attestation_challenge,
        dac_public_key,
        &response.signature,
    )
}

/// The fields of the attestation elements that a commissioner needs.
#[derive(Debug, Clone, PartialEq, Eq)]
pub struct AttestationElementsFields {
    /// The certification declaration, still encoded.
    pub certification_declaration: Vec<u8>,
    /// The nonce that the device echoes.
    pub attestation_nonce: [u8; 32],
    /// The time that the device claims, in seconds of its epoch.
    pub timestamp_epoch_seconds: u64,
}

/// The model of the attestation elements.
pub type ElementsView = (Seq<u8>, Seq<u8>, u64);

/// Whether a member of the attestation elements is at fault: a field that is
/// needed has its type and occurs once, and the nonce has 32 bytes.
pub open spec fn elements_rule(before: Seq<Item>, item: Item) -> Option<()> {
    let faulty = if under(item, 1) {
        bytes_at(item, 1) is None || bytes_field(before, 1) is Some
    } else if under(item, 2) {
        bytes_at(item, 2) is None || bytes_at(item, 2)->0.len() != 32 || bytes_field(
            before,
            2,
        ) is Some
    } else if under(item, 3) {
        uint_at(item, 3) is None || uint_field(before, 3) is Some
    } else {
        false
    };
    if faulty {
        Some(())
    } else {
        None
    }
}

/// What the members of the attestation elements hold: declaration, nonce and
/// time. `None` where one is at fault or absent.
pub open spec fn member_fields(members: Seq<Item>) -> Option<ElementsView> {
    let faulty = first_fault(
        members,
        |before: Seq<Item>, item: Item| elements_rule(before, item),
    ) is Some;
    match (bytes_field(members, 1), bytes_field(members, 2), uint_field(members, 3)) {
        (Some(declaration), Some(nonce), Some(time)) => if faulty {
            None
        } else {
            Some((declaration, nonce, time))
        },
        _ => None,
    }
}

/// What the attestation elements hold: declaration, nonce and time. `None`
/// where they are malformed or incomplete.
pub open spec fn elements_fields(tlv: Seq<u8>) -> Option<ElementsView> {
    match opening(decode_all(tlv)) {
        Opening::Members(members, Ending::Closed) => member_fields(members),
        _ => None,
    }
}

/// Decodes the attestation elements: the declaration under tag 1, the nonce
/// under tag 2, the time under tag 3. Other fields are skipped, containers with
/// all that they hold.
pub fn extract_attestation_elements_fields(tlv: &[u8]) -> (r: Result<
    AttestationElementsFields,
    AttestationError,
>)
    ensures
        match elements_fields(tlv@) {
            None => r == Err::<AttestationElementsFields, AttestationError>(
                AttestationError::ResponseElementsMalformed,
            ),
            Some((declaration, nonce, time)) => {
                &&& r matches Ok(v)
                &&& v.certification_declaration@ == declaration
                &&& v.attestation_nonce@ == nonce
                &&& v.timestamp_epoch_seconds == time
            },
        },
{
    let members = match open_structure(tlv) {
        Opened::Members(members, Ending::Closed) => members,
        _ => {
            return Err(AttestationError::ResponseElementsMalformed);
        },
    };
    let ghost items = items_of(members@);
    let ghost rule = |before: Seq<Item>, item: Item| elements_rule(before, item);
    let mut cd: Option<Vec<u8>> = None;
    let mut nonce: Option<[u8; 32]> = None;
    let mut time: Option<u64> = None;
    let mut i: usize = 0;
    while i < members.len()
        invariant
            i <= members@.len(),
            items == items_of(members@),
            rule == (|before: Seq<Item>, item: Item| elements_rule(before, item)),
            opening(decode_all(tlv@)) == Opening::Members(items, Ending::Closed),
            first_fault(items.take(i as int), rule) is None,
            match cd {
                Some(v) => bytes_field(items.take(i as int), 1) == Some(v@),
                None => bytes_field(items.take(i as int), 1) is None,
            },
            match nonce {
                Some(v) => bytes_field(items.take(i as int), 2) == Some(v@),
                None => bytes_field(items.take(i as int), 2) is None,
            },
            time == uint_field(items.take(i as int), 3),
        decreases members@.len() - i,
    {
        proof {
            lemma_next_member(members@, i as int);
            if first_fault(items.take(i + 1), rule) is Some {
                lemma_first_fault_prefix(items, i + 1, rule);
            }
        }
        let element = &members[i];
        if element_under(element, 1) {
            match element_bytes(element, 1) {
                Some(v) if cd.is_none() => {
                    cd = Some(slice_to_vec(v.as_slice()));
                },
                _ => {
                    return Err(AttestationError::ResponseElementsMalformed);
                },
            }
        } else if element_under(element, 2) {
            match element_bytes(element, 2) {
                Some(v) if nonce.is_none() && v.len() == 32 => {
                    nonce = Some(to_32(v));
                },
                _ => {
                    return Err(AttestationError::ResponseElementsMalformed);
                },
            }
        } else if element_under(element, 3) {
            match element_uint(element, 3) {
                Some(v) if time.is_none() => {
                    time = Some(v);
                },
                _ => {
                    return Err(AttestationError::ResponseElementsMalformed);
                },
            }
        }
        i = i + 1;
    }
    proof {
        assert(items.take(i as int) =~= items);
    }
    match (cd, nonce, time) {
        (Some(certification_declaration), Some(attestation_nonce), Some(timestamp)) => Ok(
            AttestationElementsFields {
                certification_declaration,
                attestation_nonce,
                timestamp_epoch_seconds: timestamp,
            },
        ),
        _ => Err(AttestationError::ResponseElementsMalformed),
    }
}

/// The attestation elements are read as they were written.
pub proof fn law_elements_are_read(declaration: Seq<u8>, nonce: Seq<u8>, time: u64)
    requires
        declaration.len() <= u64::MAX,
        nonce.len() == 32,
    ensures
        elements_fields(
            structure(
                seq![
                    at(1, Scalar::Bytes(declaration)),
                    at(2, Scalar::Bytes(nonce)),
                    at(3, Scalar::Uint(time)),
                ],
            ),
        ) == Some((declaration, nonce, time)),
{
    let rule = |before: Seq<Item>, item: Item| elements_rule(before, item);
    let nothing = Seq::<Item>::empty();
    let first = at(1, Scalar::Bytes(declaration));
    let second = at(2, Scalar::Bytes(nonce));
    let third = at(3, Scalar::Uint(time));
    let one = nothing.push(first);
    let two = one.push(second);
    let three = two.push(third);
    assert(three =~= seq![first, second, third]);
    lemma_written_structure(three);
    lemma_fault_push(nothing, first, rule);
    lemma_fault_push(one, second, rule);
    lemma_fault_push(two, third, rule);
    lemma_field_push(nothing, first, |i: Item| bytes_at(i, 1));
    lemma_field_push(one, second, |i: Item| bytes_at(i, 1));
    lemma_field_push(two, third, |i: Item| bytes_at(i, 1));
    lemma_field_push(nothing, first, |i: Item| bytes_at(i, 2));
    lemma_field_push(one, second, |i: Item| bytes_at(i, 2));
    lemma_field_push(two, third, |i: Item| bytes_at(i, 2));
    lemma_field_push(nothing, first, |i: Item| uint_at(i, 3));
    lemma_field_push(one, second, |i: Item| uint_at(i, 3));
    lemma_field_push(two, third, |i: Item| uint_at(i, 3));
}

/// What members hold that are needed does not depend on other members among
/// them.
proof fn lemma_others_do_not_count(before: Seq<Item>, others: Seq<Item>, after: Seq<Item>)
    requires
        forall|i: int|
            0 <= i < others.len() ==> {
                let item = #[trigger] others[i];
                !under(item, 1) && !under(item, 2) && !under(item, 3)
            },
    ensures
        bytes_field(before + others + after, 1) == bytes_field(before + after, 1),
        bytes_field(before + others + after, 2) == bytes_field(before + after, 2),
        uint_field(before + others + after, 3) == uint_field(before + after, 3),
        first_fault(before + others + after, |b: Seq<Item>, item: Item| elements_rule(b, item))
            == first_fault(before + after, |b: Seq<Item>, item: Item| elements_rule(b, item)),
    decreases others.len() + after.len(),
{
    let rule = |b: Seq<Item>, item: Item| elements_rule(b, item);
    let all = before + others + after;
    if after.len() > 0 {
        let front = after.drop_last();
        let item = after.last();
        lemma_others_do_not_count(before, others, front);
        assert(all =~= (before + others + front).push(item));
        assert(before + after =~= (before + front).push(item));
        lemma_member_push(before + others + front, item);
        lemma_member_push(before + front, item);
    } else if others.len() > 0 {
        let front = others.drop_last();
        let item = others.last();
        lemma_others_do_not_count(before, front, after);
        assert(item == others[others.len() - 1]);
        assert(all =~= (before + front + after).push(item));
        lemma_member_push(before + front + after, item);
    } else {
        assert(all =~= before + after);
    }
}

/// What one more member adds to the fields that are needed.
proof fn lemma_member_push(members: Seq<Item>, item: Item)
    ensures
        bytes_field(members.push(item), 1) == (match bytes_at(item, 1) {
            Some(v) => Some(v),
            None => bytes_field(members, 1),
        }),
        bytes_field(members.push(item), 2) == (match bytes_at(item, 2) {
            Some(v) => Some(v),
            None => bytes_field(members, 2),
        }),
        uint_field(members.push(item), 3) == (match uint_at(item, 3) {
            Some(v) => Some(v),
            None => uint_field(members, 3),
        }),
        first_fault(
            members.push(item),
            |b: Seq<Item>, item: Item| elements_rule(b, item),
        ) == (match first_fault(members, |b: Seq<Item>, item: Item| elements_rule(b, item)) {
            Some(e) => Some(e),
            None => elements_rule(members, item),
        }),
{
    lemma_field_push(members, item, |i: Item| bytes_at(i, 1));
    lemma_field_push(members, item, |i: Item| bytes_at(i, 2));
    lemma_field_push(members, item, |i: Item| uint_at(i, 3));
    lemma_fault_push(members, item, |b: Seq<Item>, item: Item| elements_rule(b, item));
}

/// Fields under other tags than the three that are needed are skipped, whether
/// scalars or containers, wherever they stand among the fields.
pub proof fn law_other_fields_are_skipped(before: Seq<Item>, others: Seq<Item>, after: Seq<Item>)
    requires
        closes(before, 0),
        closes(others, 0),
        closes(after, 0),
        forall|i: int|
            0 <= i < (before + others + after).len() ==> encodable(
                #[trigger] (before + others + after)[i],
            ),
        forall|i: int|
            0 <= i < tops(others, 0).len() ==> {
                let item = #[trigger] tops(others, 0)[i];
                !under(item, 1) && !under(item, 2) && !under(item, 3)
            },
    ensures
        elements_fields(structure(before + others + after)) == elements_fields(
            structure(before + after),
        ),
{
    let all = before + others + after;
    assert forall|i: int| 0 <= i < (before + after).len() implies encodable(
        #[trigger] (before + after)[i],
    ) by {
        if i < before.len() {
            assert((before + after)[i] == all[i]);
        } else {
            assert((before + after)[i] == all[i + others.len()]);
        }
    }
    lemma_tops_concat(before, 0, after);
    lemma_tops_concat(before, 0, others);
    lemma_tops_concat(before + others, 0, after);
    lemma_written_outline(all);
    lemma_written_outline(before + after);
    lemma_others_do_not_count(tops(before, 0), tops(others, 0), tops(after, 0));
}

/// The signature of a device covers all bytes of the elements and, behind them,
/// all bytes of the challenge, and nothing else.
pub proof fn law_signature_covers_elements_and_challenge(
    elements: Seq<u8>,
    challenge: Seq<u8>,
    message: Seq<u8>,
    dac_public_key: Seq<u8>,
    signature: Seq<u8>,
)
    requires
        message.len() == elements.len() + challenge.len(),
        forall|i: int| 0 <= i < elements.len() ==> message[i] == elements[i],
        forall|i: int|
            0 <= i < challenge.len() ==> message[elements.len() + i] == #[trigger] challenge[i],
    ensures
        dac_signature_valid(elements, challenge, dac_public_key, signature)
            <==> p256_fixed_signature_valid(dac_public_key, message, signature),
{
    assert(message =~= elements + challenge);
}

/// The attestation elements that are accepted hold the declaration under tag 1,
/// the nonce of 32 bytes under tag 2 and the time under tag 3.
pub proof fn law_elements_fields(tlv: Seq<u8>)
    ensures
        elements_fields(tlv) matches Some((declaration, nonce, time)) ==> {
            &&& nonce.len() == 32
            &&& opening(decode_all(tlv)) matches Opening::Members(members, ending)
            &&& ending == Ending::Closed
            &&& bytes_field(members, 1) == Some(declaration)
            &&& bytes_field(members, 2) == Some(nonce)
            &&& uint_field(members, 3) == Some(time)
        },
{
    if let Opening::Members(members, _) = opening(decode_all(tlv)) {
        if elements_fields(tlv) is Some {
            lemma_nonce_has_32_bytes(members);
        }
    }
}

/// Without an objection the nonce has 32 bytes.
proof fn lemma_nonce_has_32_bytes(members: Seq<Item>)
    requires
        first_fault(
            members,
            |before: Seq<Item>, item: Item| elements_rule(before, item),
        ) is None,
    ensures
        bytes_field(members, 2) matches Some(nonce) ==> nonce.len() == 32,
    decreases members.len(),
{
    if members.len() > 0 {
        lemma_nonce_has_32_bytes(members.drop_last());
    }
}

/// What a member under one of the three needed tags has to be: octets under tag 1,
/// 32 octets under tag 2, a number under tag 3, each once. Members under other
/// tags are never objected to.
pub proof fn law_elements_members(before: Seq<Item>, item: Item)
    ensures
        under(item, 1) ==> (elements_rule(before, item) is None <==> bytes_at(item, 1) is Some
            && bytes_field(before, 1) is None),
        under(item, 2) ==> (elements_rule(before, item) is None <==> (bytes_at(
            item,
            2,
        ) matches Some(v) && v.len() == 32) && bytes_field(before, 2) is None),
        under(item, 3) ==> (elements_rule(before, item) is None <==> uint_at(item, 3) is Some
            && uint_field(before, 3) is None),
        !under(item, 1) && !under(item, 2) && !under(item, 3) ==> elements_rule(
            before,
            item,
        ) is None,
{
}

} // verus!
