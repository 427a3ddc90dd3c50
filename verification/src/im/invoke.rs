//! Requests to invoke a command.

use crate::im::status::ImStatus;
use crate::im::{CommandPath, IM_REVISION};
use crate::tlv::laws::{law_stream_roundtrip, lemma_encode_concat, lemma_encode_one};
use crate::tlv::members::uint_field;
use crate::tlv::outline::{lemma_outline_split, lemma_scalars, outline};
use crate::tlv::writer::{put_preencoded, put_slice, retagged};
use crate::tlv::{
    at, control, decode_all, encodable, encode_all, encode_item, start_kind, struct_start,
    ContainerKind, Item, Scalar, Stream, Tag, TlvWriter,
};
use vstd::prelude::*;

verus! {

/// The answer to an invoke.
#[derive(Clone, Debug, PartialEq, Eq)]
pub enum InvokeResponse {
    /// A response command.
    Command {
        /// The path of the response command.
        path: CommandPath,
        /// Its fields, an anonymous structure.
        fields_tlv: Vec<u8>,
    },
    /// A bare status.
    Status(ImStatus),
}

/// The items of a command path under a tag: a list of endpoint, cluster and
/// command.
pub open spec fn command_path_items(tag: Tag, path: CommandPath) -> Seq<Item> {
    seq![
        Item::Start { tag, kind: ContainerKind::List },
        at(0, Scalar::Uint(path.endpoint as u64)),
        at(1, Scalar::Uint(path.cluster as u64)),
        at(2, Scalar::Uint(path.command as u64)),
        Item::End,
    ]
}

/// The items of an invoke request before the fields of its command: no
/// suppression of the response, no timed request, then the path.
pub open spec fn invoke_head(path: CommandPath) -> Seq<Item> {
    seq![
        struct_start(),
        at(0, Scalar::Bool(false)),
        at(1, Scalar::Bool(false)),
        Item::Start { tag: Tag::Context(2), kind: ContainerKind::Array },
        struct_start(),
    ] + command_path_items(Tag::Context(0), path)
}

/// The items of an invoke request behind the fields of its command.
pub open spec fn invoke_tail() -> Seq<Item> {
    seq![Item::End, Item::End, at(0xFF, Scalar::Uint(IM_REVISION as u64)), Item::End]
}

/// The bytes of a request to invoke a command with the given fields.
pub open spec fn invoke_request(path: CommandPath, fields: Seq<u8>) -> Seq<u8> {
    encode_all(invoke_head(path)) + retagged(Tag::Context(1), fields) + encode_all(invoke_tail())
}

fn write_command_path(w: &mut TlvWriter, tag: Tag, path: CommandPath)
    requires
        old(w).wf(),
    ensures
        final(w).wf(),
        final(w)@ == old(w)@ + command_path_items(tag, path),
{
    w.start_list(tag);
    w.put_uint(Tag::Context(0), path.endpoint as u64);
    w.put_uint(Tag::Context(1), path.cluster as u64);
    w.put_uint(Tag::Context(2), path.command as u64);
    w.end_container();
    proof {
        assert(w@ =~= old(w)@ + command_path_items(tag, path));
    }
}

/// Builds a request to invoke one command. Its fields are an anonymous element,
/// already encoded.
pub fn build_invoke_request(path: CommandPath, command_fields_tlv: &[u8]) -> (message: Vec<u8>)
    requires
        command_fields_tlv@.len() > 0,
        command_fields_tlv@[0] < 32,
    ensures
        message@ == invoke_request(path, command_fields_tlv@),
{
    let mut head = TlvWriter::new();
    head.start_structure(Tag::Anonymous);
    head.put_bool(Tag::Context(0), false);
    head.put_bool(Tag::Context(1), false);
    head.start_array(Tag::Context(2));
    head.start_structure(Tag::Anonymous);
    write_command_path(&mut head, Tag::Context(0), path);
    proof {
        assert(head@ =~= invoke_head(path));
    }
    let mut tail = TlvWriter::new();
    tail.end_container();
    tail.end_container();
    tail.put_uint(Tag::Context(0xFF), IM_REVISION as u64);
    tail.end_container();
    proof {
        assert(tail@ =~= invoke_tail());
    }
    let mut message = head.finish();
    put_preencoded(&mut message, Tag::Context(1), command_fields_tlv);
    let rest = tail.finish();
    put_slice(&mut message, rest.as_slice());
    message
}

/// An anonymous container under tag 1.
proof fn lemma_retagged_container(kind: ContainerKind, inner: Seq<Item>)
    ensures
        retagged(
            Tag::Context(1),
            encode_all(seq![Item::Start { tag: Tag::Anonymous, kind }] + inner),
        ) == encode_all(seq![Item::Start { tag: Tag::Context(1), kind }] + inner),
{
    let plain = Item::Start { tag: Tag::Anonymous, kind };
    let tagged = Item::Start { tag: Tag::Context(1), kind };
    let fields = encode_all(seq![plain] + inner);
    lemma_encode_concat(seq![plain], inner);
    lemma_encode_one(plain);
    lemma_encode_concat(seq![tagged], inner);
    lemma_encode_one(tagged);
    assert(encode_item(plain) =~= seq![control(Tag::Anonymous, start_kind(kind))]);
    assert(fields.skip(1) =~= encode_all(inner));
    assert(retagged(Tag::Context(1), fields) =~= encode_item(tagged) + encode_all(inner));
}

/// The items around the fields of a command can be encoded.
proof fn lemma_invoke_encodable(path: CommandPath)
    ensures
        forall|i: int|
            0 <= i < invoke_head(path).len() ==> encodable(#[trigger] invoke_head(path)[i]),
        forall|i: int| 0 <= i < invoke_tail().len() ==> encodable(#[trigger] invoke_tail()[i]),
{
}

/// A receiver of an invoke request reads the path, and then the fields of the
/// command as they were encoded, under tag 1.
pub proof fn law_invoke_request_readable(path: CommandPath, kind: ContainerKind, inner: Seq<Item>)
    requires
        forall|i: int| 0 <= i < inner.len() ==> encodable(#[trigger] inner[i]),
    ensures
        decode_all(
            invoke_request(
                path,
                encode_all(seq![Item::Start { tag: Tag::Anonymous, kind }] + inner),
            ),
        ) == (Stream {
            items: invoke_head(path) + (seq![Item::Start { tag: Tag::Context(1), kind }] + inner)
                + invoke_tail(),
            fault: None,
        }),
{
    let fields = seq![Item::Start { tag: Tag::Context(1), kind }] + inner;
    let head = invoke_head(path);
    let tail = invoke_tail();
    let whole = head + fields + tail;
    lemma_retagged_container(kind, inner);
    lemma_encode_concat(head, fields);
    lemma_encode_concat(head + fields, tail);
    lemma_invoke_encodable(path);
    assert forall|i: int| 0 <= i < fields.len() implies encodable(#[trigger] fields[i]) by {
        if i > 0 {
            assert(fields[i] == inner[i - 1]);
        }
    }
    lemma_encodable_concat(head, fields);
    lemma_encodable_concat(head + fields, tail);
    law_stream_roundtrip(whole);
}

/// What can be encoded apart can be encoded together.
proof fn lemma_encodable_concat(a: Seq<Item>, b: Seq<Item>)
    requires
        forall|i: int| 0 <= i < a.len() ==> encodable(#[trigger] a[i]),
        forall|i: int| 0 <= i < b.len() ==> encodable(#[trigger] b[i]),
    ensures
        forall|i: int| 0 <= i < (a + b).len() ==> encodable(#[trigger] (a + b)[i]),
{
    assert forall|i: int| 0 <= i < (a + b).len() implies encodable(#[trigger] (a + b)[i]) by {
        if i < a.len() {
            assert((a + b)[i] == a[i]);
        } else {
            assert((a + b)[i] == b[i - a.len()]);
        }
    }
}

/// A receiver of an invoke request that reads the list under tag 0 of the command
/// finds the endpoint under tag 0, the cluster under tag 1 and the command under
/// tag 2, and nothing else. Before it stand the flags that the response is not
/// suppressed and that the request is not timed, and the array under tag 2 with
/// the command as its only structure.
pub proof fn law_invoke_request_path(path: CommandPath, kind: ContainerKind, inner: Seq<Item>)
    requires
        forall|i: int| 0 <= i < inner.len() ==> encodable(#[trigger] inner[i]),
    ensures
        ({
            let read = decode_all(
                invoke_request(
                    path,
                    encode_all(seq![Item::Start { tag: Tag::Anonymous, kind }] + inner),
                ),
            );
            let (listed, closed) = outline(read.items.skip(6), 0);
            &&& read.fault is None
            &&& read.items.len() > 6
            &&& read.items[0] == Item::Start {
                tag: Tag::Anonymous,
                kind: ContainerKind::Structure,
            }
            &&& read.items[1] == Item::Scalar { tag: Tag::Context(0), value: Scalar::Bool(false) }
            &&& read.items[2] == Item::Scalar { tag: Tag::Context(1), value: Scalar::Bool(false) }
            &&& read.items[3] == Item::Start { tag: Tag::Context(2), kind: ContainerKind::Array }
            &&& read.items[4] == Item::Start {
                tag: Tag::Anonymous,
                kind: ContainerKind::Structure,
            }
            &&& read.items[5] == Item::Start { tag: Tag::Context(0), kind: ContainerKind::List }
            &&& closed
            &&& listed.len() == 3
            &&& uint_field(listed, 0) == Some(path.endpoint as u64)
            &&& uint_field(listed, 1) == Some(path.cluster as u64)
            &&& uint_field(listed, 2) == Some(path.command as u64)
        }),
{
    law_invoke_request_readable(path, kind, inner);
    let fields = seq![Item::Start { tag: Tag::Context(1), kind }] + inner;
    let items = invoke_head(path) + fields + invoke_tail();
    let listed = seq![
        Item::Scalar { tag: Tag::Context(0), value: Scalar::Uint(path.endpoint as u64) },
        Item::Scalar { tag: Tag::Context(1), value: Scalar::Uint(path.cluster as u64) },
        Item::Scalar { tag: Tag::Context(2), value: Scalar::Uint(path.command as u64) },
    ];
    let behind = seq![Item::End] + fields + invoke_tail();
    assert(items.skip(6) =~= listed + behind);
    lemma_scalars(listed);
    lemma_outline_split(listed, 0, behind);
    assert(behind[0] == Item::End);
    assert(listed + Seq::<Item>::empty() =~= listed);
    reveal_with_fuel(crate::tlv::members::last_field, 4);
}

/// Behind the path a receiver of an invoke request finds the fields of the
/// command under tag 1, item by item as they were encoded; then the command, the
/// array and the request end, with revision 11 under tag 255.
pub proof fn law_invoke_request_fields(path: CommandPath, kind: ContainerKind, inner: Seq<Item>)
    requires
        forall|i: int| 0 <= i < inner.len() ==> encodable(#[trigger] inner[i]),
    ensures
        ({
            let items = decode_all(
                invoke_request(
                    path,
                    encode_all(seq![Item::Start { tag: Tag::Anonymous, kind }] + inner),
                ),
            ).items;
            let n = inner.len() as int;
            &&& items.len() == n + 15
            &&& items[9] == Item::End
            &&& items[10] == Item::Start { tag: Tag::Context(1), kind }
            &&& forall|i: int| 0 <= i < n ==> #[trigger] inner[i] == items[11 + i]
            &&& items[11 + n] == Item::End
            &&& items[12 + n] == Item::End
            &&& items[13 + n] == Item::Scalar {
                tag: Tag::Context(0xFF),
                value: Scalar::Uint(11),
            }
            &&& items[14 + n] == Item::End
        }),
{
    law_invoke_request_readable(path, kind, inner);
}

/// Requests that are the same bytes are for the same command.
pub proof fn law_invoke_requests_tell_paths_apart(
    path: CommandPath,
    other: CommandPath,
    kind: ContainerKind,
    inner: Seq<Item>,
)
    requires
        forall|i: int| 0 <= i < inner.len() ==> encodable(#[trigger] inner[i]),
        invoke_request(path, encode_all(seq![Item::Start { tag: Tag::Anonymous, kind }] + inner))
            == invoke_request(
            other,
            encode_all(seq![Item::Start { tag: Tag::Anonymous, kind }] + inner),
        ),
    ensures
        path.endpoint == other.endpoint,
        path.cluster == other.cluster,
        path.command == other.command,
{
    law_invoke_request_path(path, kind, inner);
    law_invoke_request_path(other, kind, inner);
}

} // verus!
