//! Check digits after Verhoeff.
//!
//! Digits are combined as the symmetries of a pentagon: 0 to 4 are turns, 5 to
//! 9 are reflections. Before it is combined, a digit is permuted as often as its
//! distance from the right end says.

use vstd::prelude::*;
use vstd::utf8::encode_utf8;

verus! {

/// The remainder by five of a number below ten.
pub open spec fn wrapped(n: int) -> nat {
    if n >= 5 {
        (n - 5) as nat
    } else {
        n as nat
    }
}

/// The symmetry that two symmetries make, one behind the other.
pub open spec fn compose(a: nat, b: nat) -> nat {
    if a < 5 && b < 5 {
        wrapped((a + b) as int)
    } else if a < 5 {
        5 + wrapped(a + b - 5)
    } else if b < 5 {
        5 + wrapped(a - b)
    } else {
        wrapped(a - b + 5)
    }
}

/// The symmetry that undoes another.
pub open spec fn inverse(a: nat) -> nat {
    if 0 < a < 5 {
        (5 - a) as nat
    } else {
        a
    }
}

/// The permutation of digits.
#[verifier::opaque]
pub open spec fn sigma(d: nat) -> nat {
    if d == 0 {
        1
    } else if d == 1 {
        5
    } else if d == 2 {
        7
    } else if d == 3 {
        6
    } else if d == 4 {
        2
    } else if d == 5 {
        8
    } else if d == 6 {
        3
    } else if d == 7 {
        0
    } else if d == 8 {
        9
    } else {
        4
    }
}

/// A digit permuted `times` times.
pub open spec fn permuted(times: nat, d: nat) -> nat
    decreases times,
{
    if times == 0 {
        d
    } else {
        sigma(permuted((times - 1) as nat, d))
    }
}

/// What digits make from right to left, the rightmost of them permuted `start`
/// times, and each one to its left once more.
pub open spec fn combined(digits: Seq<nat>, start: nat) -> nat
    decreases digits.len(),
{
    if digits.len() == 0 {
        0
    } else {
        compose(
            combined(digits.skip(1), start),
            permuted((digits.len() - 1 + start) as nat, digits[0]),
        )
    }
}

/// The digit that a byte stands for; other bytes count as 0.
pub open spec fn digit_value(b: u8) -> nat {
    if 0x30 <= b <= 0x39 {
        (b - 0x30) as nat
    } else {
        0
    }
}

/// The digits that bytes stand for.
pub open spec fn digit_values(bytes: Seq<u8>) -> Seq<nat> {
    bytes.map_values(|b: u8| digit_value(b))
}

/// The check digit for some digits.
pub open spec fn check_of(digits: Seq<nat>) -> nat {
    inverse(combined(digits, 1))
}

/// Whether digits end with their check digit.
pub open spec fn is_checked(digits: Seq<nat>) -> bool {
    combined(digits, 0) == 0
}

/// Digits are below 10.
pub open spec fn are_digits(digits: Seq<nat>) -> bool {
    forall|i: int| 0 <= i < digits.len() ==> #[trigger] digits[i] < 10
}

fn combine(a: u8, b: u8) -> (c: u8)
    requires
        a < 10,
        b < 10,
    ensures
        c == compose(a as nat, b as nat),
        c < 10,
{
    if a < 5 && b < 5 {
        (a + b) % 5
    } else if a < 5 {
        5 + (a + b - 5) % 5
    } else if b < 5 {
        5 + (a - b) % 5
    } else {
        (a + 5 - b) % 5
    }
}

fn permute(d: u8) -> (c: u8)
    requires
        d < 10,
    ensures
        c == sigma(d as nat),
        c < 10,
{
    proof {
        reveal(sigma);
    }
    match d {
        0 => 1,
        1 => 5,
        2 => 7,
        3 => 6,
        4 => 2,
        5 => 8,
        6 => 3,
        7 => 0,
        8 => 9,
        _ => 4,
    }
}

fn permute_times(times: usize, d: u8) -> (c: u8)
    requires
        times < 8,
        d < 10,
    ensures
        c == permuted(times as nat, d as nat),
        c < 10,
{
    let mut c = d;
    let mut i: usize = 0;
    while i < times
        invariant
            i <= times,
            c == permuted(i as nat, d as nat),
            c < 10,
        decreases times - i,
    {
        c = permute(c);
        i = i + 1;
    }
    c
}

fn to_digit(b: u8) -> (d: u8)
    ensures
        d == digit_value(b),
        d < 10,
{
    if 0x30 <= b && b <= 0x39 {
        b - 0x30
    } else {
        0
    }
}

/// Eight permutations are none.
proof fn lemma_period(d: nat)
    requires
        d < 10,
    ensures
        permuted(8, d) == d,
{
    reveal(sigma);
    reveal_with_fuel(permuted, 9);
}

/// Only the remainder by eight counts for how often a digit is permuted.
proof fn lemma_permuted_mod(times: nat, d: nat)
    requires
        d < 10,
    ensures
        permuted(times, d) == permuted(times % 8, d),
        permuted(times, d) < 10,
    decreases times,
{
    if times >= 8 {
        lemma_permuted_mod((times - 8) as nat, d);
        lemma_permuted_add((times - 8) as nat, 8, d);
        lemma_period(permuted((times - 8) as nat, d));
        assert(times % 8 == (times - 8) as nat % 8);
    } else {
        lemma_permuted_range(times, d);
    }
}

/// Permuting a digit `a` times and then `b` times.
proof fn lemma_permuted_add(a: nat, b: nat, d: nat)
    ensures
        permuted(a + b, d) == permuted(b, permuted(a, d)),
    decreases b,
{
    if b > 0 {
        lemma_permuted_add(a, (b - 1) as nat, d);
    }
}

/// A permuted digit is a digit.
proof fn lemma_permuted_range(times: nat, d: nat)
    requires
        d < 10,
    ensures
        permuted(times, d) < 10,
    decreases times,
{
    reveal(sigma);
    if times > 0 {
        lemma_permuted_range((times - 1) as nat, d);
    }
}

fn combine_all(bytes: &[u8], start: usize) -> (c: u8)
    requires
        start < 8,
    ensures
        c == combined(digit_values(bytes@), start as nat),
        c < 10,
{
    let ghost digits = digit_values(bytes@);
    let total: usize = bytes.len();
    let mut c: u8 = 0;
    let mut pos: usize = start;
    let mut i: usize = total;
    proof {
        assert(digits.skip(total as int).len() == 0);
    }
    while i > 0
        invariant
            i <= total,
            total == bytes@.len(),
            start < 8,
            digits == digit_values(bytes@),
            c == combined(digits.skip(i as int), start as nat),
            c < 10,
            pos == (total - i + start) as nat % 8,
        decreases i,
    {
        i = i - 1;
        let d = to_digit(bytes[i]);
        proof {
            assert(digits.skip(i as int).skip(1) =~= digits.skip(i + 1));
            assert(digits.skip(i as int)[0] == d);
            lemma_permuted_mod((total - i - 1 + start) as nat, d as nat);
        }
        c = combine(c, permute_times(pos, d));
        pos = if pos == 7 {
            0
        } else {
            pos + 1
        };
    }
    proof {
        assert(digits.skip(0) =~= digits);
    }
    c
}

/// The check digit for a text of digits.
pub fn check_digit(digits: &str) -> (d: u8)
    ensures
        d == check_of(digit_values(encode_utf8(digits@))),
        d < 10,
{
    let c = combine_all(digits.as_bytes(), 1);
    if 0 < c && c < 5 {
        5 - c
    } else {
        c
    }
}

/// Whether a text of digits ends with its check digit.
pub fn verify(digits_with_check: &str) -> (valid: bool)
    ensures
        valid == is_checked(digit_values(encode_utf8(digits_with_check@))),
{
    combine_all(digits_with_check.as_bytes(), 0) == 0
}

/// Symmetries can be grouped at will.
proof fn lemma_compose_assoc(a: nat, b: nat, c: nat)
    requires
        a < 10,
        b < 10,
        c < 10,
    ensures
        compose(compose(a, b), c) == compose(a, compose(b, c)),
        compose(a, b) < 10,
{
}

/// A symmetry is made in one way only from a given one.
proof fn lemma_compose_cancel(a: nat, x: nat, y: nat)
    requires
        a < 10,
        x < 10,
        y < 10,
        x != y,
    ensures
        compose(a, x) != compose(a, y),
        compose(x, a) != compose(y, a),
{
}

/// Different digits stay different when they are permuted.
proof fn lemma_permuted_injective(times: nat, x: nat, y: nat)
    requires
        x < 10,
        y < 10,
        x != y,
    ensures
        permuted(times, x) != permuted(times, y),
    decreases times,
{
    reveal(sigma);
    if times > 0 {
        lemma_permuted_injective((times - 1) as nat, x, y);
        lemma_permuted_range((times - 1) as nat, x);
        lemma_permuted_range((times - 1) as nat, y);
    }
}

/// Exchanging two digits before one of them is permuted once more changes what
/// they make.
proof fn lemma_exchange(x: nat, y: nat)
    requires
        x < 10,
        y < 10,
        x != y,
    ensures
        compose(x, sigma(y)) != compose(y, sigma(x)),
        sigma(x) < 10,
        sigma(y) < 10,
{
    reveal(sigma);
}

/// Digits make a symmetry.
proof fn lemma_combined_range(digits: Seq<nat>, start: nat)
    requires
        are_digits(digits),
    ensures
        combined(digits, start) < 10,
    decreases digits.len(),
{
    if digits.len() > 0 {
        assert forall|i: int| 0 <= i < digits.skip(1).len() implies #[trigger] digits.skip(1)[i]
            < 10 by {
            assert(digits.skip(1)[i] == digits[i + 1]);
        }
        lemma_combined_range(digits.skip(1), start);
        lemma_permuted_range((digits.len() - 1 + start) as nat, digits[0]);
    }
}

/// Digits in two parts: the right part is combined first.
proof fn lemma_combined_concat(left: Seq<nat>, right: Seq<nat>, start: nat)
    requires
        are_digits(left),
        are_digits(right),
    ensures
        combined(left + right, start) == compose(
            combined(right, start),
            combined(left, right.len() + start),
        ),
    decreases left.len(),
{
    lemma_combined_range(right, start);
    if left.len() == 0 {
        assert(left + right =~= right);
    } else {
        let rest = left.skip(1);
        assert forall|i: int| 0 <= i < rest.len() implies #[trigger] rest[i] < 10 by {
            assert(rest[i] == left[i + 1]);
        }
        assert((left + right).skip(1) =~= rest + right);
        lemma_combined_concat(rest, right, start);
        lemma_combined_range(rest, right.len() + start);
        lemma_permuted_range((left.len() - 1 + right.len() + start) as nat, left[0]);
        lemma_compose_assoc(
            combined(right, start),
            combined(rest, right.len() + start),
            permuted((left.len() - 1 + right.len() + start) as nat, left[0]),
        );
    }
}

/// Digits followed by their check digit are accepted.
pub proof fn law_check_digit_verifies(digits: Seq<nat>)
    requires
        are_digits(digits),
    ensures
        check_of(digits) < 10,
        is_checked(digits.push(check_of(digits))),
{
    let c = check_of(digits);
    lemma_combined_range(digits, 1);
    let last = seq![c];
    assert(digits.push(c) =~= digits + last);
    assert(combined(last, 0) == c) by {
        reveal_with_fuel(combined, 2);
        assert(last.skip(1).len() == 0);
        assert(permuted(0, c) == c);
    }
    lemma_combined_concat(digits, last, 0);
}

/// A wrong digit is always noticed: digits that end with their check digit do
/// not any more once a single one of them is changed.
pub proof fn law_single_error_is_detected(digits: Seq<nat>, i: int, wrong: nat)
    requires
        are_digits(digits),
        is_checked(digits),
        0 <= i < digits.len(),
        wrong < 10,
        wrong != digits[i],
    ensures
        !is_checked(digits.update(i, wrong)),
{
    let right = digits.skip(i + 1);
    let left = digits.take(i);
    let times = right.len();
    assert(digits =~= left + (seq![digits[i]] + right));
    assert(digits.update(i, wrong) =~= left + (seq![wrong] + right));
    lemma_parts_are_digits(digits, i);
    lemma_permuted_injective(times, digits[i], wrong);
    lemma_permuted_range(times, digits[i]);
    lemma_permuted_range(times, wrong);
    lemma_combined_range(right, 0);
    lemma_compose_cancel(
        combined(right, 0),
        permuted(times, digits[i]),
        permuted(times, wrong),
    );
    lemma_front(digits[i], right);
    lemma_front(wrong, right);
    lemma_combined_concat(left, seq![digits[i]] + right, 0);
    lemma_combined_concat(left, seq![wrong] + right, 0);
    lemma_combined_range(left, times + 1);
    lemma_combined_range(seq![digits[i]] + right, 0);
    lemma_combined_range(seq![wrong] + right, 0);
    lemma_compose_cancel(
        combined(left, times + 1),
        combined(seq![digits[i]] + right, 0),
        combined(seq![wrong] + right, 0),
    );
}

/// What one more digit on the left adds.
proof fn lemma_front(d: nat, right: Seq<nat>)
    ensures
        combined(seq![d] + right, 0) == compose(combined(right, 0), permuted(right.len(), d)),
{
    assert((seq![d] + right).skip(1) =~= right);
}

/// Parts of digits are digits.
proof fn lemma_parts_are_digits(digits: Seq<nat>, i: int)
    requires
        are_digits(digits),
        0 <= i < digits.len(),
    ensures
        are_digits(digits.take(i)),
        are_digits(digits.skip(i + 1)),
        forall|d: nat| d < 10 ==> are_digits(#[trigger] (seq![d] + digits.skip(i + 1))),
{
    let right = digits.skip(i + 1);
    assert forall|k: int| 0 <= k < right.len() implies #[trigger] right[k] < 10 by {
        assert(right[k] == digits[k + i + 1]);
    }
    assert forall|d: nat| d < 10 implies are_digits(#[trigger] (seq![d] + right)) by {
        let all = seq![d] + right;
        assert forall|k: int| 0 <= k < all.len() implies #[trigger] all[k] < 10 by {
            if k > 0 {
                assert(all[k] == right[k - 1]);
            }
        }
    }
}

/// Two exchanged neighbours are always noticed: digits that end with their
/// check digit do not any more once two different neighbours change places.
pub proof fn law_transposition_is_detected(digits: Seq<nat>, i: int)
    requires
        are_digits(digits),
        is_checked(digits),
        0 <= i < digits.len() - 1,
        digits[i] != digits[i + 1],
    ensures
        !is_checked(digits.update(i, digits[i + 1]).update(i + 1, digits[i])),
{
    let a = digits[i];
    let b = digits[i + 1];
    let swapped = digits.update(i, b).update(i + 1, a);
    let right = digits.skip(i + 2);
    let left = digits.take(i);
    let n = right.len();
    lemma_parts_are_digits(digits, i + 1);
    lemma_parts_are_digits(digits, i);
    let ab = seq![a] + (seq![b] + right);
    let ba = seq![b] + (seq![a] + right);
    assert(digits =~= left + ab);
    assert(swapped =~= left + ba);
    lemma_front(b, right);
    lemma_front(a, right);
    lemma_front(a, seq![b] + right);
    lemma_front(b, seq![a] + right);
    let c = combined(right, 0);
    let x = permuted(n, a);
    let y = permuted(n, b);
    lemma_combined_range(right, 0);
    lemma_permuted_range(n, a);
    lemma_permuted_range(n, b);
    lemma_permuted_injective(n, a, b);
    assert(permuted(n + 1, a) == sigma(x));
    assert(permuted(n + 1, b) == sigma(y));
    assert(combined(ab, 0) == compose(compose(c, y), sigma(x)));
    assert(combined(ba, 0) == compose(compose(c, x), sigma(y)));
    lemma_exchange(x, y);
    lemma_compose_assoc(c, y, sigma(x));
    lemma_compose_assoc(c, x, sigma(y));
    lemma_compose_assoc(x, sigma(y), 0);
    lemma_compose_assoc(y, sigma(x), 0);
    lemma_compose_cancel(c, compose(y, sigma(x)), compose(x, sigma(y)));
    assert(are_digits(ab)) by {
        assert forall|k: int| 0 <= k < ab.len() implies #[trigger] ab[k] < 10 by {
            if k > 0 {
                assert(ab[k] == (seq![b] + right)[k - 1]);
            }
        }
    }
    assert(are_digits(ba)) by {
        assert forall|k: int| 0 <= k < ba.len() implies #[trigger] ba[k] < 10 by {
            if k > 0 {
                assert(ba[k] == (seq![a] + right)[k - 1]);
            }
        }
    }
    lemma_combined_concat(left, ab, 0);
    lemma_combined_concat(left, ba, 0);
    lemma_combined_range(left, n + 2);
    lemma_combined_range(ab, 0);
    lemma_combined_range(ba, 0);
    lemma_compose_cancel(combined(left, n + 2), combined(ab, 0), combined(ba, 0));
}

} // verus!
