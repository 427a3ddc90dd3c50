//! Numbers as text.

use vstd::prelude::*;
use vstd::string::StringExecFns;

verus! {

/// Calls `String::push`: the character becomes the last one of the text.
#[verifier::external_body]
pub(crate) fn push_char(text: &mut String, c: char)
    ensures
        final(text)@ == old(text)@.push(c),
{
    text.push(c);
}

/// The character of a digit in base 16 or below, letters in upper case.
pub open spec fn digit_char(d: nat) -> char {
    if d < 10 {
        (48 + d) as char
    } else {
        (55 + d) as char
    }
}

/// The character of a digit in base 16 or below, letters in lower case.
pub open spec fn lower_digit_char(d: nat) -> char {
    if d < 10 {
        (48 + d) as char
    } else {
        (87 + d) as char
    }
}

/// `n` in base ten, without leading zeros.
pub open spec fn decimal(n: nat) -> Seq<char>
    decreases n,
{
    if n < 10 {
        seq![digit_char(n)]
    } else {
        decimal(n / 10).push(digit_char(n % 10))
    }
}

/// The lowest `width` digits of `n` in base ten.
pub open spec fn padded_decimal(n: nat, width: nat) -> Seq<char>
    decreases width,
{
    if width == 0 {
        Seq::empty()
    } else {
        padded_decimal(n / 10, (width - 1) as nat).push(digit_char(n % 10))
    }
}

/// The lowest `width` digits of `n` in base sixteen, in upper case.
pub open spec fn padded_hex(n: nat, width: nat) -> Seq<char>
    decreases width,
{
    if width == 0 {
        Seq::empty()
    } else {
        padded_hex(n / 16, (width - 1) as nat).push(digit_char(n % 16))
    }
}

/// `n` in base sixteen, in lower case, without leading zeros.
pub open spec fn lower_hex(n: nat) -> Seq<char>
    decreases n,
{
    if n < 16 {
        seq![lower_digit_char(n)]
    } else {
        lower_hex(n / 16).push(lower_digit_char(n % 16))
    }
}

/// The lowest `width` digits of `n` in base sixteen, in lower case.
pub open spec fn padded_lower_hex(n: nat, width: nat) -> Seq<char>
    decreases width,
{
    if width == 0 {
        Seq::empty()
    } else {
        padded_lower_hex(n / 16, (width - 1) as nat).push(lower_digit_char(n % 16))
    }
}

/// Two digits of lower-case hexadecimal for each byte.
pub open spec fn hex_text(bytes: Seq<u8>) -> Seq<char>
    decreases bytes.len(),
{
    if bytes.len() == 0 {
        Seq::empty()
    } else {
        hex_text(bytes.drop_last()) + padded_lower_hex(bytes.last() as nat, 2)
    }
}

fn to_digit(d: u8) -> (c: char)
    requires
        d < 16,
    ensures
        c == digit_char(d as nat),
{
    if d < 10 {
        (48 + d) as char
    } else {
        (55 + d) as char
    }
}

fn to_lower_digit(d: u8) -> (c: char)
    requires
        d < 16,
    ensures
        c == lower_digit_char(d as nat),
{
    if d < 10 {
        (48 + d) as char
    } else {
        (87 + d) as char
    }
}

/// Appends a literal.
pub(crate) fn push_text(text: &mut String, more: &str)
    ensures
        final(text)@ == old(text)@ + more@,
{
    text.append(more);
}

/// Appends `n` in base ten.
pub fn push_decimal(text: &mut String, n: u64)
    ensures
        final(text)@ == old(text)@ + decimal(n as nat),
    decreases n,
{
    if n >= 10 {
        push_decimal(text, n / 10);
    }
    push_char(text, to_digit((n % 10) as u8));
    proof {
        assert(text@ =~= old(text)@ + decimal(n as nat));
    }
}

/// Appends the lowest `width` digits of `n` in base ten.
pub fn push_padded_decimal(text: &mut String, n: u64, width: usize)
    ensures
        final(text)@ == old(text)@ + padded_decimal(n as nat, width as nat),
    decreases width,
{
    if width > 0 {
        push_padded_decimal(text, n / 10, width - 1);
        push_char(text, to_digit((n % 10) as u8));
    }
    proof {
        assert(text@ =~= old(text)@ + padded_decimal(n as nat, width as nat));
    }
}

/// Appends the lowest `width` digits of `n` in base sixteen, in upper case.
pub fn push_padded_hex(text: &mut String, n: u64, width: usize)
    ensures
        final(text)@ == old(text)@ + padded_hex(n as nat, width as nat),
    decreases width,
{
    if width > 0 {
        push_padded_hex(text, n / 16, width - 1);
        push_char(text, to_digit((n % 16) as u8));
    }
    proof {
        assert(text@ =~= old(text)@ + padded_hex(n as nat, width as nat));
    }
}

/// Appends `n` in base sixteen, in lower case.
pub fn push_lower_hex(text: &mut String, n: u64)
    ensures
        final(text)@ == old(text)@ + lower_hex(n as nat),
    decreases n,
{
    if n >= 16 {
        push_lower_hex(text, n / 16);
    }
    push_char(text, to_lower_digit((n % 16) as u8));
    proof {
        assert(text@ =~= old(text)@ + lower_hex(n as nat));
    }
}

/// Appends the lowest `width` digits of `n` in base sixteen, in lower case.
pub fn push_padded_lower_hex(text: &mut String, n: u64, width: usize)
    ensures
        final(text)@ == old(text)@ + padded_lower_hex(n as nat, width as nat),
    decreases width,
{
    if width > 0 {
        push_padded_lower_hex(text, n / 16, width - 1);
        push_char(text, to_lower_digit((n % 16) as u8));
    }
    proof {
        assert(text@ =~= old(text)@ + padded_lower_hex(n as nat, width as nat));
    }
}

/// Renders bytes as lower-case hexadecimal without separators.
pub fn hex(bytes: &[u8]) -> (text: String)
    ensures
        text@ == hex_text(bytes@),
{
    let mut text = String::new();
    let mut i: usize = 0;
    proof {
        assert(bytes@.take(0).len() == 0);
    }
    while i < bytes.len()
        invariant
            i <= bytes@.len(),
            text@ == hex_text(bytes@.take(i as int)),
        decreases bytes@.len() - i,
    {
        proof {
            assert(bytes@.take(i + 1).drop_last() =~= bytes@.take(i as int));
        }
        push_padded_lower_hex(&mut text, bytes[i] as u64, 2);
        i = i + 1;
    }
    proof {
        assert(bytes@.take(i as int) =~= bytes@);
    }
    text
}

/// Digits in base ten are the characters from `0` on; one more digit behind a
/// number makes it ten times as large and adds the digit.
pub proof fn law_decimal(n: nat, d: nat)
    requires
        d < 10,
    ensures
        decimal(d) == seq![(48 + d) as char],
        n > 0 ==> decimal(10 * n + d) == decimal(n).push((48 + d) as char),
{
    assert((10 * n + d) / 10 == n);
    assert((10 * n + d) % 10 == d);
}

/// A number of a given width has one digit for each place, in base ten and in
/// base sixteen, the lowest one last.
pub proof fn law_padded_numbers(n: nat, width: nat, d: nat)
    ensures
        d < 10 ==> padded_decimal(10 * n + d, width + 1) == padded_decimal(n, width).push(
            (48 + d) as char,
        ),
        d < 16 ==> padded_hex(16 * n + d, width + 1) == padded_hex(n, width).push(
            (if d < 10 {
                48 + d
            } else {
                55 + d
            }) as char,
        ),
        d < 16 ==> padded_lower_hex(16 * n + d, width + 1) == padded_lower_hex(n, width).push(
            (if d < 10 {
                48 + d
            } else {
                87 + d
            }) as char,
        ),
        padded_decimal(n, 0).len() == 0,
        padded_hex(n, 0).len() == 0,
        padded_lower_hex(n, 0).len() == 0,
{
    if d < 10 {
        assert((10 * n + d) / 10 == n);
        assert((10 * n + d) % 10 == d);
    }
    if d < 16 {
        assert((16 * n + d) / 16 == n);
        assert((16 * n + d) % 16 == d);
    }
}

/// One more digit behind a number in base sixteen makes it sixteen times as large
/// and adds the digit; there are no zeros before it.
pub proof fn law_lower_hex(n: nat, d: nat)
    requires
        d < 16,
    ensures
        lower_hex(d) == seq![
            (if d < 10 {
                48 + d
            } else {
                87 + d
            }) as char,
        ],
        n > 0 ==> lower_hex(16 * n + d) == lower_hex(n).push(
            (if d < 10 {
                48 + d
            } else {
                87 + d
            }) as char,
        ),
{
    assert((16 * n + d) / 16 == n);
    assert((16 * n + d) % 16 == d);
}

/// Bytes are rendered in order, each as two digits in base sixteen, the higher one
/// first.
pub proof fn law_hex_text(bytes: Seq<u8>, i: int)
    requires
        0 <= i < bytes.len(),
    ensures
        hex_text(bytes).len() == 2 * bytes.len(),
        hex_text(bytes)[2 * i] as int == (if bytes[i] / 16 < 10 {
            48 + bytes[i] / 16
        } else {
            87 + bytes[i] / 16
        }),
        hex_text(bytes)[2 * i + 1] as int == (if bytes[i] % 16 < 10 {
            48 + bytes[i] % 16
        } else {
            87 + bytes[i] % 16
        }),
    decreases bytes.len(),
{
    let before = bytes.drop_last();
    lemma_hex_len(before);
    reveal_with_fuel(padded_lower_hex, 3);
    let last = bytes.last() as nat;
    assert(last / 16 % 16 == last / 16);
    assert(padded_lower_hex(last, 2) =~= seq![
        lower_digit_char(last / 16),
        lower_digit_char(last % 16),
    ]);
    if i < before.len() {
        law_hex_text(before, i);
        assert(before[i] == bytes[i]);
    }
}

/// How long rendered bytes are.
proof fn lemma_hex_len(bytes: Seq<u8>)
    ensures
        hex_text(bytes).len() == 2 * bytes.len(),
    decreases bytes.len(),
{
    if bytes.len() > 0 {
        lemma_hex_len(bytes.drop_last());
        reveal_with_fuel(padded_lower_hex, 3);
    }
}

} // verus!
