//! Names of services: how they are compared and kept in order.

use vstd::prelude::*;
use vstd::utf8::{encode_utf8, encode_utf8_decode_utf8};

verus! {

/// Whether `a` comes before `b`, byte by byte.
pub open spec fn lex_less(a: Seq<u8>, b: Seq<u8>) -> bool
    decreases a.len(),
{
    if b.len() == 0 {
        false
    } else if a.len() == 0 {
        true
    } else {
        a[0] < b[0] || (a[0] == b[0] && lex_less(a.skip(1), b.skip(1)))
    }
}

/// What comes before something comes before what comes behind it.
proof fn lemma_lex_trans(a: Seq<u8>, b: Seq<u8>, c: Seq<u8>)
    requires
        lex_less(a, b),
        lex_less(b, c),
    ensures
        lex_less(a, c),
    decreases a.len(),
{
    if a.len() > 0 && a[0] == b[0] && b[0] == c[0] {
        lemma_lex_trans(a.skip(1), b.skip(1), c.skip(1));
    }
}

/// Names in the order of their bytes, each once.
pub open spec fn in_order(names: Seq<Seq<char>>) -> bool {
    forall|i: int, j: int|
        0 <= i < j < names.len() ==> lex_less(
            encode_utf8(#[trigger] names[i]),
            encode_utf8(#[trigger] names[j]),
        )
}

/// Nothing comes before itself.
proof fn lemma_lex_strict(a: Seq<u8>)
    ensures
        !lex_less(a, a),
    decreases a.len(),
{
    if a.len() > 0 {
        lemma_lex_strict(a.skip(1));
    }
}

/// Names in order are distinct.
pub proof fn lemma_in_order_distinct(names: Seq<Seq<char>>)
    requires
        in_order(names),
    ensures
        names.no_duplicates(),
{
    assert forall|i: int, j: int| 0 <= i < names.len() && 0 <= j < names.len() && i
        != j implies names[i] != names[j] by {
        lemma_lex_strict(encode_utf8(names[i]));
    }
}

/// The characters of some names.
pub open spec fn names_view(names: Seq<String>) -> Seq<Seq<char>> {
    names.map_values(|name: String| name@)
}

/// The places that two byte strings have towards each other.
enum Place {
    Before,
    Same,
    Behind,
}

fn place(a: &[u8], b: &[u8]) -> (place: Place)
    ensures
        match place {
            Place::Before => lex_less(a@, b@),
            Place::Same => a@ == b@,
            Place::Behind => lex_less(b@, a@),
        },
{
    let mut i: usize = 0;
    proof {
        assert(a@.skip(0) =~= a@);
        assert(b@.skip(0) =~= b@);
    }
    while i < a.len() && i < b.len()
        invariant
            i <= a@.len(),
            i <= b@.len(),
            lex_less(a@, b@) == lex_less(a@.skip(i as int), b@.skip(i as int)),
            lex_less(b@, a@) == lex_less(b@.skip(i as int), a@.skip(i as int)),
            forall|j: int| 0 <= j < i ==> a@[j] == b@[j],
        decreases a@.len() - i,
    {
        proof {
            assert(a@.skip(i as int)[0] == a@[i as int]);
            assert(b@.skip(i as int)[0] == b@[i as int]);
            assert(a@.skip(i as int).skip(1) =~= a@.skip(i + 1));
            assert(b@.skip(i as int).skip(1) =~= b@.skip(i + 1));
        }
        if a[i] < b[i] {
            return Place::Before;
        }
        if b[i] < a[i] {
            return Place::Behind;
        }
        i = i + 1;
    }
    if i < b.len() {
        Place::Before
    } else if i < a.len() {
        Place::Behind
    } else {
        proof {
            assert(a@ =~= b@);
        }
        Place::Same
    }
}

/// Equal bytes are equal texts.
proof fn lemma_same_text(a: Seq<char>, b: Seq<char>)
    requires
        encode_utf8(a) == encode_utf8(b),
    ensures
        a == b,
{
    encode_utf8_decode_utf8(a);
    encode_utf8_decode_utf8(b);
}

/// Puts a name among others, where it belongs, unless it is there already.
pub fn insert_name(names: &mut Vec<String>, name: String)
    requires
        in_order(names_view(old(names)@)),
    ensures
        in_order(names_view(final(names)@)),
        forall|n: Seq<char>| #[trigger]
            names_view(final(names)@).contains(n) <==> names_view(old(names)@).contains(n) || n
                == name@,
        final(names)@.len() <= old(names)@.len() + 1,
        old(names)@.len() <= final(names)@.len(),
{
    let ghost before = names_view(names@);
    let ghost added = name@;
    let ghost key = encode_utf8(name@);
    let mut p: usize = 0;
    while p < names.len()
        invariant
            p <= names@.len(),
            before == names_view(names@),
            *names == *old(names),
            added == name@,
            key == encode_utf8(added),
            forall|i: int| 0 <= i < p ==> lex_less(encode_utf8(#[trigger] before[i]), key),
            in_order(before),
        ensures
            p < before.len() ==> lex_less(key, encode_utf8(before[p as int])),
        decreases names@.len() - p,
    {
        proof {
            assert(before[p as int] == names@[p as int]@);
        }
        match place(names[p].as_str().as_bytes(), name.as_str().as_bytes()) {
            Place::Before => {},
            Place::Same => {
                proof {
                    lemma_same_text(before[p as int], added);
                    assert forall|n: Seq<char>| #[trigger] before.contains(n) || n == added implies
                        before.contains(n) by {
                        if n == added {
                            assert(before[p as int] == n);
                        }
                    }
                }
                return ;
            },
            Place::Behind => {
                break ;
            },
        }
        p = p + 1;
    }
    names.insert(p, name);
    proof {
        let after = names_view(names@);
        assert(after =~= before.insert(p as int, added));
        lemma_insert_in_order(before, p as int, added);
        assert forall|n: Seq<char>| #[trigger] after.contains(n) <==> before.contains(n) || n
            == added by {
            if after.contains(n) {
                let i = choose|i: int| 0 <= i < after.len() && after[i] == n;
                if i < p {
                    assert(before[i] == n);
                } else if i > p {
                    assert(before[i - 1] == n);
                }
            }
            if before.contains(n) {
                let i = choose|i: int| 0 <= i < before.len() && before[i] == n;
                if i < p {
                    assert(after[i] == n);
                } else {
                    assert(after[i + 1] == n);
                }
            }
            if n == added {
                assert(after[p as int] == n);
            }
        }
    }
}

/// A name between those before and those behind it keeps the order.
proof fn lemma_insert_in_order(names: Seq<Seq<char>>, p: int, name: Seq<char>)
    requires
        0 <= p <= names.len(),
        in_order(names),
        forall|i: int|
            0 <= i < p ==> lex_less(encode_utf8(#[trigger] names[i]), encode_utf8(name)),
        p < names.len() ==> lex_less(encode_utf8(name), encode_utf8(names[p])),
    ensures
        in_order(names.insert(p, name)),
{
    let after = names.insert(p, name);
    assert forall|i: int, j: int| 0 <= i < j < after.len() implies lex_less(
        encode_utf8(#[trigger] after[i]),
        encode_utf8(#[trigger] after[j]),
    ) by {
        let x = if i < p {
            i
        } else {
            i - 1
        };
        let y = if j < p {
            j
        } else {
            j - 1
        };
        if i != p {
            assert(after[i] == names[x]);
        }
        if j != p {
            assert(after[j] == names[y]);
        }
        if i == p && y > p {
            lemma_lex_trans(encode_utf8(name), encode_utf8(names[p]), encode_utf8(names[y]));
        }
    }
}

/// A byte with upper-case letters made lower-case.
pub open spec fn ascii_lower(b: u8) -> u8 {
    if 0x41 <= b <= 0x5A {
        (b + 0x20) as u8
    } else {
        b
    }
}

/// Whether two texts are the same but for the case of letters of ASCII.
pub open spec fn same_name(a: Seq<char>, b: Seq<char>) -> bool {
    encode_utf8(a).map_values(|x: u8| ascii_lower(x)) == encode_utf8(b).map_values(
        |x: u8| ascii_lower(x),
    )
}

fn to_lower(b: u8) -> (c: u8)
    ensures
        c == ascii_lower(b),
{
    if 0x41 <= b && b <= 0x5A {
        b + 0x20
    } else {
        b
    }
}

/// Whether two texts are the same but for the case of letters of ASCII.
pub fn names_match(a: &str, b: &str) -> (same: bool)
    ensures
        same == same_name(a@, b@),
{
    let x = a.as_bytes();
    let y = b.as_bytes();
    let ghost p = x@.map_values(|b: u8| ascii_lower(b));
    let ghost q = y@.map_values(|b: u8| ascii_lower(b));
    if x.len() != y.len() {
        proof {
            assert(p.len() != q.len());
        }
        return false;
    }
    let mut i: usize = 0;
    while i < x.len()
        invariant
            i <= x@.len(),
            x@.len() == y@.len(),
            p == x@.map_values(|b: u8| ascii_lower(b)),
            q == y@.map_values(|b: u8| ascii_lower(b)),
            x@ == encode_utf8(a@),
            y@ == encode_utf8(b@),
            forall|j: int| 0 <= j < i ==> #[trigger] p[j] == q[j],
        decreases x@.len() - i,
    {
        if to_lower(x[i]) != to_lower(y[i]) {
            proof {
                assert(p[i as int] != q[i as int]);
            }
            return false;
        }
        i = i + 1;
    }
    proof {
        assert(p =~= q);
    }
    true
}

/// Names match exactly if they have equally many bytes, and each byte of one is
/// that of the other or the same letter of ASCII in the other case.
pub proof fn law_names_match(a: Seq<char>, b: Seq<char>)
    ensures
        same_name(a, b) <==> {
            let x = encode_utf8(a);
            let y = encode_utf8(b);
            &&& x.len() == y.len()
            &&& forall|i: int|
                0 <= i < x.len() ==> {
                    ||| #[trigger] x[i] == y[i]
                    ||| 0x41 <= x[i] <= 0x5A && y[i] == x[i] + 0x20
                    ||| 0x41 <= y[i] <= 0x5A && x[i] == y[i] + 0x20
                }
        },
{
    let x = encode_utf8(a);
    let y = encode_utf8(b);
    let p = x.map_values(|b: u8| ascii_lower(b));
    let q = y.map_values(|b: u8| ascii_lower(b));
    if p == q {
        assert(p.len() == q.len());
        assert forall|i: int| 0 <= i < x.len() implies {
            ||| #[trigger] x[i] == y[i]
            ||| 0x41 <= x[i] <= 0x5A && y[i] == x[i] + 0x20
            ||| 0x41 <= y[i] <= 0x5A && x[i] == y[i] + 0x20
        } by {
            assert(p[i] == q[i]);
        }
    }
    if x.len() == y.len() && forall|i: int|
        0 <= i < x.len() ==> {
            ||| #[trigger] x[i] == y[i]
            ||| 0x41 <= x[i] <= 0x5A && y[i] == x[i] + 0x20
            ||| 0x41 <= y[i] <= 0x5A && x[i] == y[i] + 0x20
        } {
        assert forall|i: int| 0 <= i < p.len() implies #[trigger] p[i] == q[i] by {
            assert(x[i] == x[i]);
        }
        assert(p =~= q);
    }
}

/// Names are kept in the order of their bytes: where two differ first, the lower
/// byte comes first, and a name comes before those that go on behind it.
pub proof fn law_byte_order(a: Seq<u8>, b: Seq<u8>, k: int)
    requires
        0 <= k <= a.len(),
        k <= b.len(),
        forall|j: int| 0 <= j < k ==> a[j] == b[j],
        k < a.len() && k < b.len() ==> a[k] != b[k],
    ensures
        lex_less(a, b) <==> k < b.len() && (k == a.len() || (k < a.len() && a[k] < b[k])),
    decreases k,
{
    if k > 0 {
        let x = a.skip(1);
        let y = b.skip(1);
        assert forall|j: int| 0 <= j < k - 1 implies x[j] == y[j] by {
            assert(x[j] == a[j + 1]);
            assert(y[j] == b[j + 1]);
        }
        law_byte_order(x, y, k - 1);
    }
}

} // verus!
