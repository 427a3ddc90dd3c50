//! The outline of a structure: its own members, without what stands inside
//! the containers among them.

use crate::tlv::{Element, Item, Tag};
use vstd::prelude::*;

verus! {

/// The members of a structure from `items` on, where the first item stands
/// inside `depth` containers of it, and whether the structure ends. A container
/// is a member by its start.
pub open spec fn outline(items: Seq<Item>, depth: nat) -> (Seq<Item>, bool)
    decreases items.len(),
{
    if items.len() == 0 {
        (Seq::empty(), false)
    } else {
        match items[0] {
            Item::End => if depth == 0 {
                (Seq::empty(), true)
            } else {
                outline(items.skip(1), (depth - 1) as nat)
            },
            Item::Start { .. } => joined(items[0], depth, outline(items.skip(1), depth + 1)),
            Item::Scalar { .. } => joined(items[0], depth, outline(items.skip(1), depth)),
        }
    }
}

/// The members that follow, with an item before them if it is a member too.
pub open spec fn joined(item: Item, depth: nat, rest: (Seq<Item>, bool)) -> (Seq<Item>, bool) {
    (
        if depth == 0 {
            seq![item] + rest.0
        } else {
            rest.0
        },
        rest.1,
    )
}

/// Whether items that start inside `depth` containers end them all, and no
/// other.
pub open spec fn closes(items: Seq<Item>, depth: nat) -> bool
    decreases items.len(),
{
    if items.len() == 0 {
        depth == 0
    } else {
        match items[0] {
            Item::End => depth > 0 && closes(items.skip(1), (depth - 1) as nat),
            Item::Start { .. } => closes(items.skip(1), depth + 1),
            Item::Scalar { .. } => closes(items.skip(1), depth),
        }
    }
}

/// The members among items that start inside `depth` containers.
pub open spec fn tops(items: Seq<Item>, depth: nat) -> Seq<Item>
    decreases items.len(),
{
    if items.len() == 0 {
        Seq::empty()
    } else {
        let here = if depth == 0 && !(items[0] is End) {
            seq![items[0]]
        } else {
            Seq::empty()
        };
        here + tops(
            items.skip(1),
            match items[0] {
                Item::End => if depth == 0 {
                    0
                } else {
                    (depth - 1) as nat
                },
                Item::Start { .. } => depth + 1,
                Item::Scalar { .. } => depth,
            },
        )
    }
}

/// The outline of whole fields and what follows them.
pub proof fn lemma_outline_split(items: Seq<Item>, depth: nat, tail: Seq<Item>)
    requires
        closes(items, depth),
    ensures
        outline(items + tail, depth) == (
            tops(items, depth) + outline(tail, 0).0,
            outline(tail, 0).1,
        ),
    decreases items.len(),
{
    let after = outline(tail, 0).0;
    if items.len() == 0 {
        assert(items + tail =~= tail);
        assert(tops(items, depth) + after =~= after);
    } else {
        let rest = items.skip(1);
        let next: nat = match items[0] {
            Item::End => (depth - 1) as nat,
            Item::Start { .. } => depth + 1,
            Item::Scalar { .. } => depth,
        };
        assert((items + tail).skip(1) =~= rest + tail);
        assert((items + tail)[0] == items[0]);
        lemma_outline_split(rest, next, tail);
        assert(seq![items[0]] + (tops(rest, next) + after) =~= (seq![items[0]] + tops(rest, next))
            + after);
        assert(Seq::<Item>::empty() + tops(rest, next) =~= tops(rest, next));
    }
}

/// Each member is one of the items.
pub proof fn lemma_outline_origin(items: Seq<Item>, depth: nat, i: int) -> (j: int)
    requires
        0 <= i < outline(items, depth).0.len(),
    ensures
        0 <= j < items.len(),
        items[j] == outline(items, depth).0[i],
    decreases items.len(),
{
    let rest = items.skip(1);
    if items[0] is End {
        1 + lemma_outline_origin(rest, (depth - 1) as nat, i)
    } else {
        let next: nat = if items[0] is Start {
            depth + 1
        } else {
            depth
        };
        if depth > 0 {
            1 + lemma_outline_origin(rest, next, i)
        } else if i > 0 {
            1 + lemma_outline_origin(rest, next, i - 1)
        } else {
            0
        }
    }
}

/// The members of whole fields and of what follows them.
pub proof fn lemma_tops_concat(items: Seq<Item>, depth: nat, tail: Seq<Item>)
    requires
        closes(items, depth),
    ensures
        closes(items + tail, depth) == closes(tail, 0),
        tops(items + tail, depth) == tops(items, depth) + tops(tail, 0),
    decreases items.len(),
{
    if items.len() == 0 {
        assert(items + tail =~= tail);
        assert(tops(items, depth) + tops(tail, 0) =~= tops(tail, 0));
    } else {
        let rest = items.skip(1);
        let next: nat = match items[0] {
            Item::End => (depth - 1) as nat,
            Item::Start { .. } => depth + 1,
            Item::Scalar { .. } => depth,
        };
        let here = if depth == 0 && !(items[0] is End) {
            seq![items[0]]
        } else {
            Seq::empty()
        };
        assert((items + tail).skip(1) =~= rest + tail);
        assert((items + tail)[0] == items[0]);
        lemma_tops_concat(rest, next, tail);
        assert(here + (tops(rest, next) + tops(tail, 0)) =~= (here + tops(rest, next)) + tops(
            tail,
            0,
        ));
    }
}

/// Scalars close what they open, and all of them are members.
pub proof fn lemma_scalars(items: Seq<Item>)
    requires
        forall|i: int| 0 <= i < items.len() ==> #[trigger] items[i] is Scalar,
    ensures
        closes(items, 0),
        tops(items, 0) == items,
    decreases items.len(),
{
    if items.len() > 0 {
        let rest = items.skip(1);
        assert(items[0] is Scalar);
        assert forall|i: int| 0 <= i < rest.len() implies #[trigger] rest[i] is Scalar by {
            assert(rest[i] == items[i + 1]);
        }
        lemma_scalars(rest);
        assert(seq![items[0]] + rest =~= items);
    }
}

/// Whether an item stands under a context tag.
pub open spec fn under(item: Item, tag: u8) -> bool {
    match item {
        Item::Scalar { tag: Tag::Context(t), .. } => t == tag,
        Item::Start { tag: Tag::Context(t), .. } => t == tag,
        _ => false,
    }
}

/// Whether an element stands under a context tag.
pub fn element_under(element: &Element, tag: u8) -> (r: bool)
    ensures
        r == under(element@, tag),
{
    match element {
        Element::Scalar { tag: Tag::Context(t), .. } => *t == tag,
        Element::ContainerStart { tag: Tag::Context(t), .. } => *t == tag,
        _ => false,
    }
}

/// A container among the members of a structure counts by its start; what stands
/// inside it up to its end is passed over.
pub proof fn law_containers_are_passed_over(start: Item, inner: Seq<Item>, rest: Seq<Item>)
    requires
        start is Start,
        closes(inner, 0),
    ensures
        outline(seq![start] + inner + seq![Item::End] + rest, 0) == (
            seq![start] + outline(rest, 0).0,
            outline(rest, 0).1,
        ),
{
    let all = seq![start] + inner + seq![Item::End] + rest;
    let behind = seq![Item::End] + rest;
    assert(all.skip(1) =~= inner + behind);
    lemma_outline_inside(inner, 0, behind);
    assert(behind.skip(1) =~= rest);
}

/// What is closed inside a container adds no member.
proof fn lemma_outline_inside(items: Seq<Item>, depth: nat, behind: Seq<Item>)
    requires
        closes(items, depth),
    ensures
        outline(items + behind, depth + 1) == outline(behind, 1),
    decreases items.len(),
{
    if items.len() == 0 {
        assert(items + behind =~= behind);
    } else {
        assert((items + behind).skip(1) =~= items.skip(1) + behind);
        let next: nat = match items[0] {
            Item::End => (depth - 1) as nat,
            Item::Start { .. } => depth + 1,
            Item::Scalar { .. } => depth,
        };
        lemma_outline_inside(items.skip(1), next, behind);
    }
}

/// Scalars are members in their order, and a structure ends with the first end
/// that closes no container in it.
pub proof fn law_members_in_order(item: Item, rest: Seq<Item>)
    requires
        item is Scalar,
    ensures
        outline(seq![item] + rest, 0) == (seq![item] + outline(rest, 0).0, outline(rest, 0).1),
        outline(seq![Item::End] + rest, 0) == (Seq::<Item>::empty(), true),
        outline(Seq::empty(), 0) == (Seq::<Item>::empty(), false),
{
    assert((seq![item] + rest).skip(1) =~= rest);
}

} // verus!
