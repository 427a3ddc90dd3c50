//! Bytes as text in base 38.
//!
//! Three bytes become five characters, two become four, one becomes two. The
//! first character is the lowest digit.

use crate::setup::Error;
use crate::text::push_char;
use crate::tlv::laws::{lemma_le_value_bound, lemma_pow256_values};
use crate::tlv::{le_bytes, le_value};
use vstd::prelude::*;
use vstd::utf8::{encode_utf8, is_ascii_chars, is_ascii_chars_encode_utf8};

verus! {

/// The digit that a byte stands for: `0` to `9`, `A` to `Z`, `-`, `.`.
pub open spec fn digit_of(b: u8) -> Option<nat> {
    if 0x30 <= b <= 0x39 {
        Some((b - 0x30) as nat)
    } else if 0x41 <= b <= 0x5A {
        Some((b - 0x41 + 10) as nat)
    } else if b == 0x2D {
        Some(36)
    } else if b == 0x2E {
        Some(37)
    } else {
        None
    }
}

/// The byte of a digit.
pub open spec fn digit_byte(d: nat) -> u8 {
    if d < 10 {
        (0x30 + d) as u8
    } else if d < 36 {
        (0x41 + d - 10) as u8
    } else if d == 36 {
        0x2D
    } else {
        0x2E
    }
}

/// The lowest `count` digits of a number, the lowest one first.
pub open spec fn digits(value: nat, count: nat) -> Seq<u8>
    decreases count,
{
    if count == 0 {
        Seq::empty()
    } else {
        seq![digit_byte(value % 38)] + digits(value / 38, (count - 1) as nat)
    }
}

/// How many characters a group of one, two or three bytes becomes.
pub open spec fn group_chars(bytes: nat) -> nat {
    if bytes == 3 {
        5
    } else if bytes == 2 {
        4
    } else {
        2
    }
}

/// The bytes of the text that some bytes become.
pub open spec fn encoded(bytes: Seq<u8>) -> Seq<u8>
    decreases bytes.len(),
{
    if bytes.len() == 0 {
        Seq::empty()
    } else {
        let n: nat = if bytes.len() >= 3 {
            3
        } else {
            bytes.len()
        };
        digits(le_value(bytes.take(n as int)), group_chars(n)) + encoded(bytes.skip(n as int))
    }
}

/// The characters of bytes below 128.
pub open spec fn ascii_text(bytes: Seq<u8>) -> Seq<char> {
    bytes.map_values(|b: u8| b as char)
}

/// The last byte of a group that is no digit.
pub open spec fn last_stranger(group: Seq<u8>) -> Option<nat>
    decreases group.len(),
{
    if group.len() == 0 {
        None
    } else if digit_of(group.last()) is None {
        Some((group.len() - 1) as nat)
    } else {
        last_stranger(group.drop_last())
    }
}

/// The number that some digits stand for, the lowest one first.
pub open spec fn digits_value(group: Seq<u8>) -> nat
    decreases group.len(),
{
    if group.len() == 0 {
        0
    } else {
        digit_of(group[0])->Some_0 + 38 * digits_value(group.skip(1))
    }
}

/// What stands in the text from position `at` on. A group has five characters,
/// the last one possibly two or four; of several strangers in a group the last
/// is named.
pub open spec fn decoded(text: Seq<u8>, at: nat) -> Result<Seq<u8>, Error>
    decreases text.len(),
{
    if text.len() == 0 {
        Ok(Seq::empty())
    } else {
        let n: nat = if text.len() >= 5 {
            5
        } else {
            text.len()
        };
        let group = text.take(n as int);
        match last_stranger(group) {
            Some(k) => Err(Error::InvalidBase38Char(group[k as int] as char, (at + k) as usize)),
            None => if n == 1 || n == 3 {
                Err(Error::InvalidBase38Char('?', (at + n - 1) as usize))
            } else {
                match decoded(text.skip(n as int), at + n) {
                    Err(e) => Err(e),
                    Ok(rest) => Ok(le_bytes(digits_value(group), group_bytes(n)) + rest),
                }
            },
        }
    }
}

/// How many bytes a group of two, four or five characters becomes.
pub open spec fn group_bytes(chars: nat) -> nat {
    if chars == 5 {
        3
    } else if chars == 4 {
        2
    } else {
        1
    }
}

fn to_char(d: u32) -> (c: char)
    requires
        d < 38,
    ensures
        c == digit_byte(d as nat) as char,
{
    if d < 10 {
        (0x30 + d as u8) as char
    } else if d < 36 {
        (0x41 + (d as u8 - 10)) as char
    } else if d == 36 {
        '-'
    } else {
        '.'
    }
}

fn push_chars(out: &mut String, value: u32, count: usize)
    ensures
        final(out)@ == old(out)@ + ascii_text(digits(value as nat, count as nat)),
    decreases count,
{
    if count == 0 {
        proof {
            assert(out@ =~= old(out)@ + ascii_text(digits(value as nat, count as nat)));
        }
        return ;
    }
    let ghost before = out@;
    push_char(out, to_char(value % 38));
    push_chars(out, value / 38, count - 1);
    proof {
        let tail = digits(value as nat / 38, (count - 1) as nat);
        assert(digits(value as nat, count as nat) =~= seq![digit_byte(value as nat % 38)] + tail);
        assert(out@ =~= before + ascii_text(digits(value as nat, count as nat)));
    }
}

/// Encodes bytes in base 38.
pub fn encode(bytes: &[u8]) -> (text: String)
    ensures
        text@ == ascii_text(encoded(bytes@)),
{
    let total: usize = bytes.len();
    let mut text = String::new();
    let mut i: usize = 0;
    proof {
        assert(bytes@.skip(0) =~= bytes@);
        assert(text@ + ascii_text(encoded(bytes@)) =~= ascii_text(encoded(bytes@)));
    }
    while i < total
        invariant
            i <= total,
            total == bytes@.len(),
            text@ + ascii_text(encoded(bytes@.skip(i as int))) == ascii_text(encoded(bytes@)),
        decreases total - i,
    {
        let n: usize = if total - i >= 3 {
            3
        } else {
            total - i
        };
        let ghost rest = bytes@.skip(i as int);
        let ghost before = text@;
        proof {
            lemma_pow256_values();
            assert(bytes@.subrange(i as int, i + n) =~= rest.take(n as int));
            lemma_le_value_bound(rest.take(n as int));
        }
        let value = crate::tlv::reader::read_le(bytes, i, n) as u32;
        let count: usize = if n == 3 {
            5
        } else if n == 2 {
            4
        } else {
            2
        };
        push_chars(&mut text, value, count);
        proof {
            let group = digits(value as nat, count as nat);
            assert(rest.skip(n as int) =~= bytes@.skip(i + n));
            assert(encoded(rest) == group + encoded(rest.skip(n as int)));
            assert(ascii_text(encoded(rest)) =~= ascii_text(group) + ascii_text(
                encoded(rest.skip(n as int)),
            ));
            assert(text@ + ascii_text(encoded(rest.skip(n as int))) =~= before + ascii_text(
                encoded(rest),
            ));
        }
        i = i + n;
    }
    proof {
        assert(bytes@.skip(i as int).len() == 0);
        assert(text@ =~= ascii_text(encoded(bytes@)));
    }
    text
}

/// The digit that a byte stands for.
fn alphabet_index(byte: u8) -> (digit: Option<u8>)
    ensures
        match digit {
            Some(d) => digit_of(byte) == Some(d as nat) && d < 38,
            None => digit_of(byte) is None,
        },
{
    if 0x30 <= byte && byte <= 0x39 {
        Some(byte - 0x30)
    } else if 0x41 <= byte && byte <= 0x5A {
        Some(byte - 0x41 + 10)
    } else if byte == 0x2D {
        Some(36)
    } else if byte == 0x2E {
        Some(37)
    } else {
        None
    }
}

/// What a group of at most five characters stands for, or its last stranger.
fn group_value(text: &[u8], start: usize, n: usize) -> (r: Result<u64, usize>)
    requires
        n <= 5,
        start + n <= text@.len(),
    ensures
        match r {
            Err(k) => k < n && last_stranger(text@.subrange(start as int, start + n)) == Some(
                k as nat,
            ),
            Ok(value) => last_stranger(text@.subrange(start as int, start + n)) is None && value
                == digits_value(text@.subrange(start as int, start + n)),
        },
{
    let ghost group = text@.subrange(start as int, start + n);
    let total: usize = text.len();
    let mut value: u64 = 0;
    let mut k: usize = n;
    proof {
        assert(group.take(n as int) =~= group);
        assert(group.skip(n as int).len() == 0);
    }
    while k > 0
        invariant
            k <= n <= 5,
            total == text@.len(),
            start + n <= total,
            group == text@.subrange(start as int, start + n),
            last_stranger(group) == last_stranger(group.take(k as int)),
            value == digits_value(group.skip(k as int)),
            k == 5 ==> value == 0,
            k == 4 ==> value < 38,
            k == 3 ==> value < 38 * 38,
            k == 2 ==> value < 38 * 38 * 38,
            k == 1 ==> value < 38 * 38 * 38 * 38,
        decreases k,
    {
        proof {
            assert(group.take(k as int).last() == text@[start + k - 1]);
            assert(group.take(k as int).drop_last() =~= group.take(k - 1));
            assert(group.skip(k - 1)[0] == text@[start + k - 1]);
            assert(group.skip(k - 1).skip(1) =~= group.skip(k as int));
        }
        k = k - 1;
        match alphabet_index(text[start + k]) {
            None => {
                return Err(k);
            },
            Some(d) => {
                value = value * 38 + d as u64;
            },
        }
    }
    proof {
        assert(group.take(0).len() == 0);
        assert(group.skip(0) =~= group);
    }
    Ok(value)
}

/// Decodes text in base 38.
pub fn decode(s: &str) -> (r: Result<Vec<u8>, Error>)
    ensures
        match decoded(encode_utf8(s@), 0) {
            Ok(view) => r matches Ok(bytes) && bytes@ == view,
            Err(e) => r == Err::<Vec<u8>, Error>(e),
        },
{
    decode_bytes(s.as_bytes())
}

/// Decodes the bytes of text in base 38.
pub fn decode_bytes(text: &[u8]) -> (r: Result<Vec<u8>, Error>)
    ensures
        match decoded(text@, 0) {
            Ok(view) => r matches Ok(bytes) && bytes@ == view,
            Err(e) => r == Err::<Vec<u8>, Error>(e),
        },
{
    let total: usize = text.len();
    let mut out: Vec<u8> = Vec::new();
    let mut i: usize = 0;
    proof {
        assert(text@.skip(0) =~= text@);
        if decoded(text@, 0) is Ok {
            assert(out@ + decoded(text@, 0)->Ok_0 =~= decoded(text@, 0)->Ok_0);
        }
    }
    while i < total
        invariant
            i <= total,
            total == text@.len(),
            match decoded(text@.skip(i as int), i as nat) {
                Ok(rest) => decoded(text@, 0) == Ok::<Seq<u8>, Error>(out@ + rest),
                Err(e) => decoded(text@, 0) == Err::<Seq<u8>, Error>(e),
            },
        decreases total - i,
    {
        let n: usize = if total - i >= 5 {
            5
        } else {
            total - i
        };
        let ghost rest = text@.skip(i as int);
        let ghost before = out@;
        proof {
            assert(text@.subrange(i as int, i + n) =~= rest.take(n as int));
            assert(rest.skip(n as int) =~= text@.skip(i + n));
        }
        let value = match group_value(text, i, n) {
            Err(k) => {
                proof {
                    assert(rest.take(n as int)[k as int] == text@[i + k]);
                }
                return Err(Error::InvalidBase38Char(text[i + k] as char, i + k));
            },
            Ok(value) => value,
        };
        if n == 1 || n == 3 {
            return Err(Error::InvalidBase38Char('?', i + n - 1));
        }
        let count: usize = if n == 5 {
            3
        } else if n == 4 {
            2
        } else {
            1
        };
        crate::tlv::writer::put_le(&mut out, value, count);
        proof {
            let part = le_bytes(value as nat, count as nat);
            if decoded(rest.skip(n as int), (i + n) as nat) is Ok {
                let tail = decoded(rest.skip(n as int), (i + n) as nat)->Ok_0;
                assert(before + (part + tail) =~= out@ + tail);
            }
        }
        i = i + n;
    }
    proof {
        assert(text@.skip(i as int).len() == 0);
        assert(out@ + Seq::<u8>::empty() =~= out@);
    }
    Ok(out)
}

/// The digits of a number stand for it, if there are enough of them.
proof fn lemma_digits_roundtrip(value: nat, count: nat, bound: nat)
    requires
        value < bound,
        bound == power38(count),
    ensures
        digits(value, count).len() == count,
        last_stranger(digits(value, count)) is None,
        digits_value(digits(value, count)) == value,
        forall|i: int| 0 <= i < count ==> #[trigger] digits(value, count)[i] < 128,
        forall|i: int| 0 <= i < count ==> digit_of(#[trigger] digits(value, count)[i]) is Some,
    decreases count,
{
    if count > 0 {
        let tail = digits(value / 38, (count - 1) as nat);
        let all = digits(value, count);
        assert(value / 38 < power38((count - 1) as nat)) by {
            assert(value < 38 * power38((count - 1) as nat));
        }
        lemma_digits_roundtrip(value / 38, (count - 1) as nat, power38((count - 1) as nat));
        assert(all =~= seq![digit_byte(value % 38)] + tail);
        assert(all.skip(1) =~= tail);
        assert(digit_of(digit_byte(value % 38)) == Some(value % 38));
        assert forall|i: int| 0 <= i < count implies #[trigger] all[i] < 128 && digit_of(all[i]) is Some by {
            if i > 0 {
                assert(all[i] == tail[i - 1]);
            }
        }
        lemma_no_stranger(all);
    }
}

/// The powers of 38.
pub open spec fn power38(n: nat) -> nat
    decreases n,
{
    if n == 0 {
        1
    } else {
        38 * power38((n - 1) as nat)
    }
}

/// Where all bytes are digits there is no stranger.
proof fn lemma_no_stranger(group: Seq<u8>)
    requires
        forall|i: int| 0 <= i < group.len() ==> digit_of(#[trigger] group[i]) is Some,
    ensures
        last_stranger(group) is None,
    decreases group.len(),
{
    if group.len() > 0 {
        assert forall|i: int| 0 <= i < group.drop_last().len() implies digit_of(
            #[trigger] group.drop_last()[i],
        ) is Some by {
            assert(group.drop_last()[i] == group[i]);
        }
        lemma_no_stranger(group.drop_last());
    }
}

/// How many characters some bytes become: five for every three bytes, and two or
/// four for one or two bytes that are left.
pub open spec fn text_len(bytes: nat) -> nat {
    bytes / 3 * 5 + (if bytes % 3 == 0 {
        0
    } else {
        group_chars(bytes % 3)
    })
}

/// Digits are as many as are asked for.
proof fn lemma_digits_len(value: nat, count: nat)
    ensures
        digits(value, count).len() == count,
    decreases count,
{
    if count > 0 {
        lemma_digits_len(value / 38, (count - 1) as nat);
    }
}

/// Every three bytes become five characters; one byte that is left becomes two,
/// and two become four.
pub proof fn law_base38_length(bytes: Seq<u8>)
    ensures
        encoded(bytes).len() == text_len(bytes.len()),
    decreases bytes.len(),
{
    if bytes.len() > 0 {
        let n: nat = if bytes.len() >= 3 {
            3
        } else {
            bytes.len()
        };
        lemma_digits_len(le_value(bytes.take(n as int)), group_chars(n));
        law_base38_length(bytes.skip(n as int));
    }
}

/// Groups of three bytes are encoded one by one: the text of whole groups and of
/// what follows them is their texts one behind the other.
pub proof fn law_base38_groups(groups: Seq<u8>, rest: Seq<u8>)
    requires
        groups.len() % 3 == 0,
    ensures
        encoded(groups + rest) == encoded(groups) + encoded(rest),
    decreases groups.len(),
{
    let all = groups + rest;
    if groups.len() == 0 {
        assert(all =~= rest);
        assert(encoded(groups) + encoded(rest) =~= encoded(rest));
    } else {
        let tail = groups.skip(3);
        law_base38_groups(tail, rest);
        assert(all.take(3) =~= groups.take(3));
        assert(all.skip(3) =~= tail + rest);
        let head = digits(le_value(groups.take(3)), 5);
        assert(head + (encoded(tail) + encoded(rest)) =~= (head + encoded(tail)) + encoded(rest));
    }
}

/// Decoding undoes encoding.
pub proof fn law_base38_roundtrip(bytes: Seq<u8>, at: nat)
    ensures
        decoded(encoded(bytes), at) == Ok::<Seq<u8>, Error>(bytes),
        forall|i: int| 0 <= i < encoded(bytes).len() ==> #[trigger] encoded(bytes)[i] < 128,
    decreases bytes.len(),
{
    if bytes.len() == 0 {
        assert(bytes =~= Seq::<u8>::empty());
    } else {
        let n: nat = if bytes.len() >= 3 {
            3
        } else {
            bytes.len()
        };
        let head = bytes.take(n as int);
        let rest = bytes.skip(n as int);
        let c = group_chars(n);
        let group = digits(le_value(head), c);
        let text = encoded(bytes);
        lemma_pow256_values();
        lemma_le_value_bound(head);
        reveal_with_fuel(power38, 6);
        lemma_digits_roundtrip(le_value(head), c, power38(c));
        law_base38_roundtrip(rest, at + c);
        assert(text == group + encoded(rest));
        if n < 3 {
            assert(rest.len() == 0);
            assert(encoded(rest).len() == 0);
        }
        assert(text.take(c as int) =~= group);
        assert(text.skip(c as int) =~= encoded(rest));
        assert(c == (if text.len() >= 5 {
            5
        } else {
            text.len()
        }));
        lemma_le_of_value(head);
        assert(head + rest =~= bytes);
        assert forall|i: int| 0 <= i < text.len() implies #[trigger] text[i] < 128 by {
            if i < c {
                assert(text[i] == group[i]);
            } else {
                assert(text[i] == encoded(rest)[i - c]);
            }
        }
    }
}

/// Bytes are those of the number that they stand for.
pub proof fn lemma_le_of_value(bytes: Seq<u8>)
    ensures
        le_bytes(le_value(bytes), bytes.len()) == bytes,
    decreases bytes.len(),
{
    if bytes.len() > 0 {
        let tail = bytes.skip(1);
        lemma_le_of_value(tail);
        assert(le_value(bytes) % 256 == bytes[0] as nat);
        assert(le_value(bytes) / 256 == le_value(tail));
        assert(seq![bytes[0]] + tail =~= bytes);
    } else {
        assert(le_bytes(le_value(bytes), 0) =~= bytes);
    }
}

/// The text of encoded bytes has the bytes that were meant.
pub proof fn lemma_text_bytes(bytes: Seq<u8>)
    requires
        forall|i: int| 0 <= i < bytes.len() ==> #[trigger] bytes[i] < 128,
    ensures
        encode_utf8(ascii_text(bytes)) == bytes,
        is_ascii_chars(ascii_text(bytes)),
{
    let text = ascii_text(bytes);
    assert forall|i: int| 0 <= i < text.len() implies '\0' <= #[trigger] text[i] <= '\u{7f}' by {
        assert(text[i] == bytes[i] as char);
    }
    is_ascii_chars_encode_utf8(text);
    assert forall|i: int| 0 <= i < bytes.len() implies #[trigger] encode_utf8(text)[i]
        == bytes[i] by {
        assert(text[i] as u8 == encode_utf8(text)[i]);
    }
    assert(encode_utf8(text) =~= bytes);
}

/// The alphabet: the digits stand for themselves, the letters for 10 to 35, the
/// dash for 36 and the dot for 37; nothing else is a digit.
pub proof fn law_alphabet(b: u8, d: nat)
    ensures
        d < 10 ==> digit_byte(d) == 48 + d,
        10 <= d < 36 ==> digit_byte(d) == 55 + d,
        digit_byte(36) == 45,
        digit_byte(37) == 46,
        digit_of(b) == Some(d) <==> d < 38 && digit_byte(d) == b,
{
}

/// A group of one, two or three bytes is a number with the first byte lowest, and
/// is written in two, four or five digits, the lowest one first.
pub proof fn law_groups_are_written(a: u8, b: u8, c: u8)
    ensures
        ({
            let one = a as nat;
            let two = (a + 256 * b) as nat;
            let three = (a + 256 * b + 65536 * c) as nat;
            &&& encoded(seq![a]) == seq![digit_byte(one % 38), digit_byte(one / 38)]
            &&& encoded(seq![a, b]) == seq![
                digit_byte(two % 38),
                digit_byte(two / 38 % 38),
                digit_byte(two / 1444 % 38),
                digit_byte(two / 54872 % 38),
            ]
            &&& encoded(seq![a, b, c]) == seq![
                digit_byte(three % 38),
                digit_byte(three / 38 % 38),
                digit_byte(three / 1444 % 38),
                digit_byte(three / 54872 % 38),
                digit_byte(three / 2085136 % 38),
            ]
        }),
{
    lemma_one_byte(a);
    lemma_two_bytes(a, b);
    lemma_three_bytes(a, b, c);
}

/// How one byte is written.
proof fn lemma_one_byte(a: u8)
    ensures
        encoded(seq![a]) == seq![digit_byte(a as nat % 38), digit_byte(a as nat / 38)],
{
    lemma_group(seq![a]);
    lemma_group_value(a, 0, 0);
    lemma_few_digits(a as nat);
    assert(a as nat / 38 % 38 == a as nat / 38);
}

/// How two bytes are written.
proof fn lemma_two_bytes(a: u8, b: u8)
    ensures
        ({
            let two = (a + 256 * b) as nat;
            encoded(seq![a, b]) == seq![
                digit_byte(two % 38),
                digit_byte(two / 38 % 38),
                digit_byte(two / 1444 % 38),
                digit_byte(two / 54872 % 38),
            ]
        }),
{
    lemma_group(seq![a, b]);
    lemma_group_value(a, b, 0);
    lemma_few_digits((a + 256 * b) as nat);
}

/// How three bytes are written.
proof fn lemma_three_bytes(a: u8, b: u8, c: u8)
    ensures
        ({
            let three = (a + 256 * b + 65536 * c) as nat;
            encoded(seq![a, b, c]) == seq![
                digit_byte(three % 38),
                digit_byte(three / 38 % 38),
                digit_byte(three / 1444 % 38),
                digit_byte(three / 54872 % 38),
                digit_byte(three / 2085136 % 38),
            ]
        }),
{
    lemma_group(seq![a, b, c]);
    lemma_group_value(a, b, c);
    lemma_few_digits((a + 256 * b + 65536 * c) as nat);
}

/// The number of a group.
proof fn lemma_group_value(a: u8, b: u8, c: u8)
    ensures
        le_value(seq![a]) == a,
        le_value(seq![a, b]) == a + 256 * b,
        le_value(seq![a, b, c]) == a + 256 * b + 65536 * c,
{
    reveal_with_fuel(le_value, 4);
}

/// A group that stands alone.
proof fn lemma_group(group: Seq<u8>)
    requires
        1 <= group.len() <= 3,
    ensures
        encoded(group) == digits(le_value(group), group_chars(group.len())),
{
    let n = group.len() as int;
    assert(group.take(n) =~= group);
    assert(encoded(group.skip(n)) =~= Seq::<u8>::empty());
    assert(digits(le_value(group), group_chars(group.len())) + Seq::<u8>::empty() =~= digits(
        le_value(group),
        group_chars(group.len()),
    ));
}

/// The lowest digits of a number.
proof fn lemma_few_digits(value: nat)
    ensures
        digits(value, 2) == seq![digit_byte(value % 38), digit_byte(value / 38 % 38)],
        digits(value, 4) == seq![
            digit_byte(value % 38),
            digit_byte(value / 38 % 38),
            digit_byte(value / 1444 % 38),
            digit_byte(value / 54872 % 38),
        ],
        digits(value, 5) == seq![
            digit_byte(value % 38),
            digit_byte(value / 38 % 38),
            digit_byte(value / 1444 % 38),
            digit_byte(value / 54872 % 38),
            digit_byte(value / 2085136 % 38),
        ],
{
    reveal_with_fuel(digits, 6);
    assert(value / 38 / 38 == value / 1444);
    assert(value / 1444 / 38 == value / 54872);
    assert(value / 54872 / 38 == value / 2085136);
    assert(digits(value, 2) =~= seq![digit_byte(value % 38), digit_byte(value / 38 % 38)]);
    assert(digits(value, 4) =~= seq![
        digit_byte(value % 38),
        digit_byte(value / 38 % 38),
        digit_byte(value / 1444 % 38),
        digit_byte(value / 54872 % 38),
    ]);
    assert(digits(value, 5) =~= seq![
        digit_byte(value % 38),
        digit_byte(value / 38 % 38),
        digit_byte(value / 1444 % 38),
        digit_byte(value / 54872 % 38),
        digit_byte(value / 2085136 % 38),
    ]);
}

/// A group of two, four or five digits stands for the number that they spell, the
/// lowest digit first, and becomes one, two or three bytes of it, the lowest one
/// first.
pub proof fn law_groups_are_read(group: Seq<u8>, d: Seq<nat>, at: nat)
    requires
        group.len() == d.len(),
        group.len() == 2 || group.len() == 4 || group.len() == 5,
        forall|i: int|
            0 <= i < d.len() ==> (#[trigger] d[i]) < 38 && group[i] == digit_byte(d[i]),
    ensures
        ({
            let n = d[0] + 38 * d[1];
            let m = n + 1444 * d[2] + 54872 * d[3];
            let k = m + 2085136 * d[4];
            &&& group.len() == 2 ==> decoded(group, at) == Ok::<Seq<u8>, Error>(
                seq![(n % 256) as u8],
            )
            &&& group.len() == 4 ==> decoded(group, at) == Ok::<Seq<u8>, Error>(
                seq![(m % 256) as u8, (m / 256 % 256) as u8],
            )
            &&& group.len() == 5 ==> decoded(group, at) == Ok::<Seq<u8>, Error>(
                seq![(k % 256) as u8, (k / 256 % 256) as u8, (k / 65536 % 256) as u8],
            )
        }),
{
    assert forall|i: int| 0 <= i < group.len() implies digit_of(#[trigger] group[i]) == Some(
        d[i],
    ) by {
        assert(d[i] < 38);
    }
    lemma_no_stranger(group);
    let len = group.len() as int;
    assert(group.take(len) =~= group);
    assert(group.skip(len).len() == 0);
    reveal_with_fuel(digits_value, 6);
    reveal_with_fuel(le_bytes, 4);
    let n = d[0] + 38 * d[1];
    let m = n + 1444 * d[2] + 54872 * d[3];
    let k = m + 2085136 * d[4];
    let value = digits_value(group);
    assert(decoded(group.skip(len), (at + len) as nat) == Ok::<Seq<u8>, Error>(Seq::empty()));
    assert(decoded(group, at) == Ok::<Seq<u8>, Error>(
        le_bytes(value, group_bytes(group.len())) + Seq::<u8>::empty(),
    ));
    if len == 2 {
        assert(value == n);
        assert(le_bytes(n, 1) + Seq::<u8>::empty() =~= seq![(n % 256) as u8]);
    } else if len == 4 {
        assert(value == m);
        assert(le_bytes(m, 2) + Seq::<u8>::empty() =~= seq![
            (m % 256) as u8,
            (m / 256 % 256) as u8,
        ]);
    } else {
        assert(value == k);
        assert(k / 256 / 256 == k / 65536);
        assert(le_bytes(k, 3) + Seq::<u8>::empty() =~= seq![
            (k % 256) as u8,
            (k / 256 % 256) as u8,
            (k / 65536 % 256) as u8,
        ]);
    }
}

/// A single character that is no digit is named with its place.
pub proof fn law_stranger_is_named(text: Seq<u8>, at: nat, k: int)
    requires
        0 <= k < text.len(),
        digit_of(text[k]) is None,
        forall|i: int|
            0 <= i < text.len() && i != k ==> digit_of(#[trigger] text[i]) is Some,
    ensures
        decoded(text, at) == Err::<Seq<u8>, Error>(
            Error::InvalidBase38Char(text[k] as char, (at + k) as usize),
        ),
    decreases text.len(),
{
    let n: int = if text.len() >= 5 {
        5
    } else {
        text.len() as int
    };
    let group = text.take(n);
    if k < n {
        lemma_one_stranger(group, k);
    } else {
        assert forall|i: int| 0 <= i < group.len() implies digit_of(#[trigger] group[i]) is Some by {
            assert(group[i] == text[i]);
        }
        lemma_no_stranger(group);
        let rest = text.skip(n);
        assert(rest[k - n] == text[k]);
        assert forall|i: int| 0 <= i < rest.len() && i != k - n implies digit_of(
            #[trigger] rest[i],
        ) is Some by {
            assert(rest[i] == text[i + n]);
        }
        law_stranger_is_named(rest, (at + n) as nat, k - n);
    }
}

/// The only stranger of a group is the last one.
proof fn lemma_one_stranger(group: Seq<u8>, k: int)
    requires
        0 <= k < group.len(),
        digit_of(group[k]) is None,
        forall|i: int| k < i < group.len() ==> digit_of(#[trigger] group[i]) is Some,
    ensures
        last_stranger(group) == Some(k as nat),
    decreases group.len(),
{
    if k < group.len() - 1 {
        assert(digit_of(group[group.len() - 1]) is Some);
        lemma_one_stranger(group.drop_last(), k);
    }
}

} // verus!
