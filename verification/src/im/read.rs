//! Requests to read attributes, and what they report.

use crate::im::IM_REVISION;
use crate::tlv::laws::law_stream_roundtrip;
use crate::tlv::members::uint_field;
use crate::tlv::outline::{lemma_outline_split, lemma_scalars, outline};
use crate::tlv::{
    at, decode_all, encodable, encode_all, struct_start, ContainerKind, Item, Scalar, Tag,
    TlvWriter, Value,
};
use vstd::prelude::*;

verus! {

/// The path of an attribute.
#[derive(Copy, Clone, Debug, PartialEq, Eq, Structural)]
pub struct AttributePath {
    /// The endpoint.
    pub endpoint: u16,
    /// The cluster.
    pub cluster: u32,
    /// The attribute.
    pub attribute: u32,
}

/// The attributes that a device reported.
#[derive(Debug, PartialEq, Eq)]
pub struct ReportData {
    /// The attributes with their values, in the order of the report.
    pub attributes: Vec<(AttributePath, Value)>,
    /// Whether further messages continue the report.
    pub more_chunked_messages: bool,
}

/// The items of an attribute path: a list of endpoint, cluster and attribute.
pub open spec fn attribute_path_items(path: AttributePath) -> Seq<Item> {
    seq![
        Item::Start { tag: Tag::Anonymous, kind: ContainerKind::List },
        at(2, Scalar::Uint(path.endpoint as u64)),
        at(3, Scalar::Uint(path.cluster as u64)),
        at(4, Scalar::Uint(path.attribute as u64)),
        Item::End,
    ]
}

/// The items of some attribute paths, one behind the other.
pub open spec fn attribute_paths_items(paths: Seq<AttributePath>) -> Seq<Item>
    decreases paths.len(),
{
    if paths.len() == 0 {
        Seq::empty()
    } else {
        attribute_paths_items(paths.drop_last()) + attribute_path_items(paths.last())
    }
}

/// The items of a request to read attributes: an array of their paths, and that
/// nothing is filtered by fabric.
pub open spec fn read_request_items(paths: Seq<AttributePath>) -> Seq<Item> {
    seq![struct_start(), Item::Start { tag: Tag::Context(0), kind: ContainerKind::Array }]
        + attribute_paths_items(paths) + seq![
        Item::End,
        at(3, Scalar::Bool(false)),
        at(0xFF, Scalar::Uint(IM_REVISION as u64)),
        Item::End,
    ]
}

/// Builds a request to read attributes.
pub fn build_read_request(paths: &[AttributePath]) -> (message: Vec<u8>)
    ensures
        message@ == encode_all(read_request_items(paths@)),
{
    let mut w = TlvWriter::new();
    w.start_structure(Tag::Anonymous);
    w.start_array(Tag::Context(0));
    let ghost head = seq![
        struct_start(),
        Item::Start { tag: Tag::Context(0), kind: ContainerKind::Array },
    ];
    let mut i: usize = 0;
    proof {
        assert(paths@.take(0).len() == 0);
        assert(w@ =~= head + attribute_paths_items(paths@.take(0)));
    }
    while i < paths.len()
        invariant
            i <= paths@.len(),
            w.wf(),
            w@ == head + attribute_paths_items(paths@.take(i as int)),
        decreases paths@.len() - i,
    {
        let path = paths[i];
        w.start_list(Tag::Anonymous);
        w.put_uint(Tag::Context(2), path.endpoint as u64);
        w.put_uint(Tag::Context(3), path.cluster as u64);
        w.put_uint(Tag::Context(4), path.attribute as u64);
        w.end_container();
        proof {
            let longer = paths@.take(i + 1);
            assert(longer.drop_last() =~= paths@.take(i as int));
            assert(w@ =~= head + attribute_paths_items(longer));
        }
        i = i + 1;
    }
    w.end_container();
    w.put_bool(Tag::Context(3), false);
    w.put_uint(Tag::Context(0xFF), IM_REVISION as u64);
    w.end_container();
    proof {
        assert(paths@.take(i as int) =~= paths@);
        assert(w@ =~= read_request_items(paths@));
    }
    w.finish()
}

/// Where the items of a path stand among those of some paths.
proof fn lemma_path_place(paths: Seq<AttributePath>, i: int, k: int)
    requires
        0 <= i < paths.len(),
        0 <= k < 5,
    ensures
        attribute_paths_items(paths).len() == 5 * paths.len(),
        attribute_paths_items(paths)[5 * i + k] == attribute_path_items(paths[i])[k],
    decreases paths.len(),
{
    let before = paths.drop_last();
    lemma_paths_len(before);
    if i < before.len() {
        lemma_path_place(before, i, k);
    }
}

/// How many items some paths have.
proof fn lemma_paths_len(paths: Seq<AttributePath>)
    ensures
        attribute_paths_items(paths).len() == 5 * paths.len(),
    decreases paths.len(),
{
    if paths.len() > 0 {
        lemma_paths_len(paths.drop_last());
    }
}

/// A request can be encoded.
proof fn lemma_read_request_encodable(paths: Seq<AttributePath>)
    ensures
        forall|j: int|
            0 <= j < read_request_items(paths).len() ==> encodable(
                #[trigger] read_request_items(paths)[j],
            ),
{
    let items = read_request_items(paths);
    lemma_paths_len(paths);
    assert forall|j: int| 0 <= j < items.len() implies encodable(#[trigger] items[j]) by {
        if 2 <= j < 2 + 5 * paths.len() {
            let i = (j - 2) / 5;
            let k = (j - 2) % 5;
            lemma_path_place(paths, i, k);
            assert(items[j] == attribute_paths_items(paths)[5 * i + k]);
        }
    }
}

/// A receiver of a request to read attributes finds the array under tag 0 with
/// one list for each path, in their order, which holds the endpoint under tag 2,
/// the cluster under tag 3 and the attribute under tag 4, and nothing else.
pub proof fn law_read_request_paths(paths: Seq<AttributePath>, i: int)
    requires
        0 <= i < paths.len(),
    ensures
        ({
            let read = decode_all(encode_all(read_request_items(paths)));
            let (listed, closed) = outline(read.items.skip(3 + 5 * i), 0);
            &&& read.fault is None
            &&& read.items[0] == Item::Start {
                tag: Tag::Anonymous,
                kind: ContainerKind::Structure,
            }
            &&& read.items[1] == Item::Start { tag: Tag::Context(0), kind: ContainerKind::Array }
            &&& read.items[2 + 5 * i] == Item::Start {
                tag: Tag::Anonymous,
                kind: ContainerKind::List,
            }
            &&& closed
            &&& listed.len() == 3
            &&& uint_field(listed, 2) == Some(paths[i].endpoint as u64)
            &&& uint_field(listed, 3) == Some(paths[i].cluster as u64)
            &&& uint_field(listed, 4) == Some(paths[i].attribute as u64)
        }),
{
    let items = read_request_items(paths);
    lemma_read_request_encodable(paths);
    law_stream_roundtrip(items);
    lemma_paths_len(paths);
    lemma_path_place(paths, i, 0);
    lemma_path_place(paths, i, 1);
    lemma_path_place(paths, i, 2);
    lemma_path_place(paths, i, 3);
    lemma_path_place(paths, i, 4);
    let all = attribute_paths_items(paths);
    assert(items[2 + 5 * i] == all[5 * i]);
    assert(items[3 + 5 * i] == all[5 * i + 1]);
    assert(items[4 + 5 * i] == all[5 * i + 2]);
    assert(items[5 + 5 * i] == all[5 * i + 3]);
    assert(items[6 + 5 * i] == all[5 * i + 4]);
    let listed = seq![
        Item::Scalar { tag: Tag::Context(2), value: Scalar::Uint(paths[i].endpoint as u64) },
        Item::Scalar { tag: Tag::Context(3), value: Scalar::Uint(paths[i].cluster as u64) },
        Item::Scalar { tag: Tag::Context(4), value: Scalar::Uint(paths[i].attribute as u64) },
    ];
    let behind = items.skip(6 + 5 * i);
    assert(items.skip(3 + 5 * i) =~= listed + behind);
    lemma_scalars(listed);
    lemma_outline_split(listed, 0, behind);
    assert(behind[0] == Item::End);
    assert(listed + Seq::<Item>::empty() =~= listed);
    reveal_with_fuel(crate::tlv::members::last_field, 4);
}

/// Behind its paths a request to read attributes says under tag 3 that nothing is
/// filtered by fabric, and carries revision 11 under tag 255.
pub proof fn law_read_request_end(paths: Seq<AttributePath>)
    ensures
        ({
            let items = decode_all(encode_all(read_request_items(paths))).items;
            let n = 5 * paths.len() as int;
            &&& items.len() == n + 6
            &&& items[2 + n] == Item::End
            &&& items[3 + n] == Item::Scalar {
                tag: Tag::Context(3),
                value: Scalar::Bool(false),
            }
            &&& items[4 + n] == Item::Scalar {
                tag: Tag::Context(0xFF),
                value: Scalar::Uint(11),
            }
            &&& items[5 + n] == Item::End
        }),
{
    lemma_read_request_encodable(paths);
    law_stream_roundtrip(read_request_items(paths));
    lemma_paths_len(paths);
}

} // verus!
