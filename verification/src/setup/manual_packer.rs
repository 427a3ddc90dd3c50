//! Manual pairing codes: 11 digits, or 21 with vendor and product.
//!
//! The first digit holds the upper two bits of the discriminator and whether
//! vendor and product follow. Five digits hold the next two bits of the
//! discriminator and the lower 14 bits of the passcode, four digits the upper 13
//! bits of the passcode. Vendor and product take five digits each. The last
//! digit is a check digit.

use crate::setup::verhoeff::{
    are_digits, check_digit, check_of, digit_value, digit_values, is_checked,
    law_check_digit_verifies, law_single_error_is_detected, law_transposition_is_detected, verify,
};
use crate::setup::{
    is_payload, passcode_fault, CommissioningFlow, Discriminator, DiscoveryCapabilities, Passcode,
    PayloadView, Error, SetupPayload,
};
use crate::text::{digit_char, padded_decimal, push_char, push_padded_decimal};
use vstd::prelude::*;
use vstd::string::StrSliceExecFns;
use vstd::utf8::{encode_utf8, is_ascii_chars_encode_utf8};

verus! {

/// The greatest value of the first digit: three bits.
pub const CHUNK0_MAX: u32 = 7;

/// The greatest value of the five digits behind it: 16 bits.
pub const CHUNK1_MAX: u32 = 0xFFFF;

/// The greatest value of the four digits behind those: 13 bits.
pub const CHUNK2_MAX: u32 = 0x1FFF;

/// The lowest `width` digits of a number.
pub open spec fn padded_digits(n: nat, width: nat) -> Seq<nat>
    decreases width,
{
    if width == 0 {
        Seq::empty()
    } else {
        padded_digits(n / 10, (width - 1) as nat).push(n % 10)
    }
}

/// The number that digits stand for.
pub open spec fn number(digits: Seq<nat>) -> nat
    decreases digits.len(),
{
    if digits.len() == 0 {
        0
    } else {
        10 * number(digits.drop_last()) + digits.last()
    }
}

/// The characters of digits.
pub open spec fn digits_text(digits: Seq<nat>) -> Seq<char> {
    digits.map_values(|d: nat| digit_char(d))
}

/// Whether a manual code names vendor and product: if a payload has both.
pub open spec fn names_product(p: PayloadView) -> bool {
    p.vendor_id is Some && p.product_id is Some
}

/// The digits of a manual code before its check digit.
pub open spec fn body_digits(p: PayloadView) -> Seq<nat> {
    let first = p.discriminator as nat / 1024 + (if names_product(p) {
        4nat
    } else {
        0
    });
    let second = (p.discriminator as nat / 256 % 4) * 16384 + p.passcode as nat % 16384;
    let third = p.passcode as nat / 16384;
    padded_digits(first, 1) + padded_digits(second, 5) + padded_digits(third, 4) + (
    if names_product(p) {
        padded_digits(p.vendor_id->Some_0 as nat, 5) + padded_digits(
            p.product_id->Some_0 as nat,
            5,
        )
    } else {
        Seq::empty()
    })
}

/// The digits of a manual code.
pub open spec fn code_digits(p: PayloadView) -> Seq<nat> {
    body_digits(p).push(check_of(body_digits(p)))
}

/// Whether a character is a digit.
pub open spec fn is_digit(c: char) -> bool {
    '0' <= c <= '9'
}

/// The first character from a place on that is no digit.
pub open spec fn first_stranger(text: Seq<char>, from: nat) -> Option<nat>
    decreases text.len() - from,
{
    if from >= text.len() {
        None
    } else if !is_digit(text[from as int]) {
        Some(from)
    } else {
        first_stranger(text, from + 1)
    }
}

/// The payload that digits with a good check digit stand for, or why there is
/// none: the first digit has to agree with the length, and each group of digits
/// has to fit the bits that it stands for. A manual code says nothing of the flow
/// and of discovery, and has only the upper four bits of the discriminator.
pub open spec fn payload_of(digits: Seq<nat>) -> Result<PayloadView, Error> {
    let first = digits[0];
    let second = number(digits.subrange(1, 6));
    let third = number(digits.subrange(6, 10));
    let short = first % 4 * 4 + second / 16384;
    let passcode = (second % 16384 + third * 16384) as u32;
    let named = first / 4 % 2 == 1;
    let vendor = number(digits.subrange(10, 15));
    let product = number(digits.subrange(15, 20));
    if digits.len() != (if named {
        21int
    } else {
        11
    }) {
        Err(Error::ManualCodeWrongLength(digits.len() as usize))
    } else if first > CHUNK0_MAX {
        Err(Error::FieldOutOfRange { field: "chunk0", value: first as u32 })
    } else if second > CHUNK1_MAX {
        Err(Error::FieldOutOfRange { field: "chunk1", value: second as u32 })
    } else if third > CHUNK2_MAX {
        Err(Error::FieldOutOfRange { field: "chunk2", value: third as u32 })
    } else if named && vendor > u16::MAX {
        Err(Error::FieldOutOfRange { field: "vendor_id", value: vendor as u32 })
    } else if named && product > u16::MAX {
        Err(Error::FieldOutOfRange { field: "product_id", value: product as u32 })
    } else {
        match passcode_fault(passcode) {
            Some(e) => Err(e),
            None => Ok(
                PayloadView {
                    version: 0,
                    vendor_id: if named {
                        Some(vendor as u16)
                    } else {
                        None
                    },
                    product_id: if named {
                        Some(product as u16)
                    } else {
                        None
                    },
                    commissioning_flow: CommissioningFlow::Standard,
                    discovery_capabilities: 0,
                    discriminator: (short * 256) as u16,
                    passcode,
                },
            ),
        }
    }
}

/// The payload in a manual code, or why there is none.
pub open spec fn manual_payload(text: Seq<char>) -> Result<PayloadView, Error> {
    let bytes = encode_utf8(text);
    if bytes.len() != 11 && bytes.len() != 21 {
        Err(Error::ManualCodeWrongLength(bytes.len() as usize))
    } else {
        match first_stranger(text, 0) {
            Some(k) => Err(Error::ManualCodeNonDigit(text[k as int], k as usize)),
            None => if !is_checked(digit_values(bytes)) {
                Err(Error::ManualCodeBadChecksum)
            } else {
                payload_of(digit_values(bytes))
            },
        }
    }
}

/// The text of digits is the text of the number.
proof fn lemma_padded_text(n: nat, width: nat)
    ensures
        padded_decimal(n, width) == digits_text(padded_digits(n, width)),
        are_digits(padded_digits(n, width)),
        padded_digits(n, width).len() == width,
    decreases width,
{
    if width > 0 {
        lemma_padded_text(n / 10, (width - 1) as nat);
        assert(padded_decimal(n, width) =~= digits_text(padded_digits(n, width)));
    } else {
        assert(padded_decimal(n, width) =~= digits_text(padded_digits(n, width)));
    }
}

/// The bytes of the text of digits stand for them.
proof fn lemma_text_digits(digits: Seq<nat>)
    requires
        are_digits(digits),
    ensures
        digit_values(encode_utf8(digits_text(digits))) == digits,
        encode_utf8(digits_text(digits)).len() == digits.len(),
        first_stranger(digits_text(digits), 0) is None,
{
    let text = digits_text(digits);
    assert forall|i: int| 0 <= i < text.len() implies '\0' <= #[trigger] text[i] <= '\u{7f}'
        && is_digit(text[i]) by {
        assert(text[i] == digit_char(digits[i]));
    }
    is_ascii_chars_encode_utf8(text);
    let bytes = encode_utf8(text);
    assert forall|i: int| 0 <= i < bytes.len() implies #[trigger] digit_values(bytes)[i]
        == digits[i] by {
        assert(text[i] as u8 == bytes[i]);
        assert(text[i] == digit_char(digits[i]));
    }
    assert(digit_values(bytes) =~= digits);
    lemma_no_stranger(text, 0);
}

/// Where all characters are digits there is no stranger.
proof fn lemma_no_stranger(text: Seq<char>, from: nat)
    requires
        forall|i: int| 0 <= i < text.len() ==> is_digit(#[trigger] text[i]),
    ensures
        first_stranger(text, from) is None,
    decreases text.len() - from,
{
    if from < text.len() {
        lemma_no_stranger(text, from + 1);
    }
}

/// Digits one behind the other.
proof fn lemma_digits_concat(a: Seq<nat>, b: Seq<nat>)
    requires
        are_digits(a),
        are_digits(b),
    ensures
        are_digits(a + b),
        digits_text(a + b) == digits_text(a) + digits_text(b),
{
    assert forall|i: int| 0 <= i < (a + b).len() implies #[trigger] (a + b)[i] < 10 by {
        if i < a.len() {
            assert((a + b)[i] == a[i]);
        } else {
            assert((a + b)[i] == b[i - a.len()]);
        }
    }
    assert(digits_text(a + b) =~= digits_text(a) + digits_text(b));
}

/// The digits before the check digit are digits.
proof fn lemma_body_digits(p: PayloadView)
    ensures
        are_digits(body_digits(p)),
        body_digits(p).len() == (if names_product(p) {
            20int
        } else {
            10
        }),
        digits_text(body_digits(p)) == padded_decimal(
            p.discriminator as nat / 1024 + (if names_product(p) {
                4nat
            } else {
                0
            }),
            1,
        ) + padded_decimal(
            (p.discriminator as nat / 256 % 4) * 16384 + p.passcode as nat % 16384,
            5,
        ) + padded_decimal(p.passcode as nat / 16384, 4) + (if names_product(p) {
            padded_decimal(p.vendor_id->Some_0 as nat, 5) + padded_decimal(
                p.product_id->Some_0 as nat,
                5,
            )
        } else {
            Seq::empty()
        }),
{
    let first = p.discriminator as nat / 1024 + (if names_product(p) {
        4nat
    } else {
        0
    });
    let second = (p.discriminator as nat / 256 % 4) * 16384 + p.passcode as nat % 16384;
    let third = p.passcode as nat / 16384;
    lemma_padded_text(first, 1);
    lemma_padded_text(second, 5);
    lemma_padded_text(third, 4);
    let a = padded_digits(first, 1);
    let b = padded_digits(second, 5);
    let c = padded_digits(third, 4);
    lemma_digits_concat(a, b);
    lemma_digits_concat(a + b, c);
    if names_product(p) {
        lemma_padded_text(p.vendor_id->Some_0 as nat, 5);
        lemma_padded_text(p.product_id->Some_0 as nat, 5);
        let d = padded_digits(p.vendor_id->Some_0 as nat, 5);
        let e = padded_digits(p.product_id->Some_0 as nat, 5);
        lemma_digits_concat(d, e);
        lemma_digits_concat(a + b + c, d + e);
    } else {
        let nothing = Seq::<nat>::empty();
        lemma_digits_concat(a + b + c, nothing);
        assert(digits_text(nothing) =~= Seq::<char>::empty());
    }
}

/// Writes a manual code.
pub fn pack(payload: &SetupPayload) -> (text: String)
    ensures
        text@ == digits_text(code_digits(payload@)),
{
    let named = payload.vendor_id.is_some() && payload.product_id.is_some();
    let discriminator = payload.discriminator.as_u16() as u32;
    let passcode = payload.passcode.as_u32();
    let first: u32 = discriminator / 1024 + if named {
        4
    } else {
        0
    };
    let second: u32 = (discriminator / 256 % 4) * 16384 + passcode % 16384;
    let third: u32 = passcode / 16384;
    let mut text = String::new();
    push_padded_decimal(&mut text, first as u64, 1);
    push_padded_decimal(&mut text, second as u64, 5);
    push_padded_decimal(&mut text, third as u64, 4);
    if let Some(vid) = payload.vendor_id {
        if let Some(pid) = payload.product_id {
            push_padded_decimal(&mut text, vid as u64, 5);
            push_padded_decimal(&mut text, pid as u64, 5);
        }
    }
    proof {
        lemma_body_digits(payload@);
        assert(text@ =~= digits_text(body_digits(payload@)));
        lemma_text_digits(body_digits(payload@));
    }
    let check = check_digit(text.as_str());
    push_char(&mut text, (check + 48) as char);
    proof {
        assert(text@ =~= digits_text(code_digits(payload@)));
    }
    text
}

fn read_number(bytes: &[u8], start: usize, n: usize) -> (value: u32)
    requires
        n <= 5,
        start + n <= bytes@.len(),
    ensures
        value == number(digit_values(bytes@).subrange(start as int, start + n)),
        value < 100_000,
{
    let ghost digits = digit_values(bytes@).subrange(start as int, start + n);
    let total: usize = bytes.len();
    let mut value: u32 = 0;
    let mut i: usize = 0;
    proof {
        assert(digits.take(0).len() == 0);
    }
    while i < n
        invariant
            i <= n <= 5,
            total == bytes@.len(),
            start + n <= total,
            digits == digit_values(bytes@).subrange(start as int, start + n),
            value == number(digits.take(i as int)),
            i == 0 ==> value == 0,
            i == 1 ==> value < 10,
            i == 2 ==> value < 100,
            i == 3 ==> value < 1000,
            i == 4 ==> value < 10_000,
            i == 5 ==> value < 100_000,
        decreases n - i,
    {
        let b = bytes[start + i];
        let d: u32 = if 48 <= b && b <= 57 {
            (b - 48) as u32
        } else {
            0
        };
        proof {
            assert(digits.take(i + 1).drop_last() =~= digits.take(i as int));
            assert(digits.take(i + 1).last() == digit_value(b));
        }
        value = value * 10 + d;
        i = i + 1;
    }
    proof {
        assert(digits.take(n as int) =~= digits);
    }
    value
}

/// Reads a manual code.
pub fn unpack(s: &str) -> (r: Result<SetupPayload, Error>)
    ensures
        match manual_payload(s@) {
            Ok(view) => r matches Ok(payload) && payload@ == view,
            Err(e) => r == Err::<SetupPayload, Error>(e),
        },
{
    let bytes = s.as_bytes();
    let total: usize = bytes.len();
    if total != 11 && total != 21 {
        return Err(Error::ManualCodeWrongLength(total));
    }
    let chars: usize = s.unicode_len();
    let mut i: usize = 0;
    while i < chars
        invariant
            i <= chars,
            chars == s@.len(),
            first_stranger(s@, 0) == first_stranger(s@, i as nat),
            manual_payload(s@) == (match first_stranger(s@, 0) {
                Some(k) => Err(Error::ManualCodeNonDigit(s@[k as int], k as usize)),
                None => if !is_checked(digit_values(encode_utf8(s@))) {
                    Err(Error::ManualCodeBadChecksum)
                } else {
                    payload_of(digit_values(encode_utf8(s@)))
                },
            }),
        decreases chars - i,
    {
        let c = s.get_char(i);
        if !('0' <= c && c <= '9') {
            return Err(Error::ManualCodeNonDigit(c, i));
        }
        i = i + 1;
    }
    if !verify(s) {
        return Err(Error::ManualCodeBadChecksum);
    }
    let ghost digits = digit_values(bytes@);
    let first = read_number(bytes, 0, 1);
    let second = read_number(bytes, 1, 5);
    let third = read_number(bytes, 6, 4);
    proof {
        let front = digits.subrange(0, 1);
        assert(front.drop_last().len() == 0);
        assert(number(front.drop_last()) == 0);
        assert(front.last() == digits[0]);
    }
    let named = first / 4 % 2 == 1;
    if named != (total == 21) {
        return Err(Error::ManualCodeWrongLength(total));
    }
    if first > CHUNK0_MAX {
        return Err(Error::FieldOutOfRange { field: "chunk0", value: first });
    }
    if second > CHUNK1_MAX {
        return Err(Error::FieldOutOfRange { field: "chunk1", value: second });
    }
    if third > CHUNK2_MAX {
        return Err(Error::FieldOutOfRange { field: "chunk2", value: third });
    }
    let short: u32 = first % 4 * 4 + second / 16384;
    let code: u32 = second % 16384 + third * 16384;
    let mut vendor_id: Option<u16> = None;
    let mut product_id: Option<u16> = None;
    if named {
        let vendor = read_number(bytes, 10, 5);
        let product = read_number(bytes, 15, 5);
        if vendor > 0xFFFF {
            return Err(Error::FieldOutOfRange { field: "vendor_id", value: vendor });
        }
        if product > 0xFFFF {
            return Err(Error::FieldOutOfRange { field: "product_id", value: product });
        }
        vendor_id = Some(vendor as u16);
        product_id = Some(product as u16);
    }
    let discriminator = match Discriminator::new((short * 256) as u16) {
        Err(e) => {
            return Err(e);
        },
        Ok(discriminator) => discriminator,
    };
    let passcode = match Passcode::new(code) {
        Err(e) => {
            return Err(e);
        },
        Ok(passcode) => passcode,
    };
    Ok(
        SetupPayload {
            version: 0,
            vendor_id,
            product_id,
            commissioning_flow: CommissioningFlow::Standard,
            discovery_capabilities: DiscoveryCapabilities::empty(),
            discriminator,
            passcode,
        },
    )
}

/// Writes the manual code of a payload.
pub fn encode_manual_code(payload: &SetupPayload) -> (text: String)
    ensures
        text@ == digits_text(code_digits(payload@)),
{
    pack(payload)
}

/// Reads a manual code.
pub fn parse_manual_code(text: &str) -> (r: Result<SetupPayload, Error>)
    ensures
        match manual_payload(text@) {
            Ok(view) => r matches Ok(payload) && payload@ == view,
            Err(e) => r == Err::<SetupPayload, Error>(e),
        },
{
    unpack(text)
}

/// What a manual code carries of a payload.
pub open spec fn carried(p: PayloadView) -> PayloadView {
    PayloadView {
        version: 0,
        vendor_id: if names_product(p) {
            p.vendor_id
        } else {
            None
        },
        product_id: if names_product(p) {
            p.product_id
        } else {
            None
        },
        commissioning_flow: CommissioningFlow::Standard,
        discovery_capabilities: 0,
        discriminator: (p.discriminator / 256 * 256) as u16,
        passcode: p.passcode,
    }
}

/// The powers of ten.
pub open spec fn power10(n: nat) -> nat
    decreases n,
{
    if n == 0 {
        1
    } else {
        10 * power10((n - 1) as nat)
    }
}

/// Enough digits of a number stand for it.
proof fn lemma_number_roundtrip(n: nat, width: nat)
    requires
        n < power10(width),
    ensures
        number(padded_digits(n, width)) == n,
        padded_digits(n, width).len() == width,
    decreases width,
{
    if width > 0 {
        assert(n / 10 < power10((width - 1) as nat)) by {
            assert(n < 10 * power10((width - 1) as nat));
        }
        lemma_number_roundtrip(n / 10, (width - 1) as nat);
        assert(padded_digits(n, width).drop_last() =~= padded_digits(n / 10, (width - 1) as nat));
    }
}

/// Reading a manual code gives back what it carries of the payload that it was
/// written for: everything but the lower eight bits of the discriminator, the
/// version, the flow and the ways of discovery.
pub proof fn law_manual_roundtrip(p: PayloadView)
    requires
        is_payload(p),
    ensures
        manual_payload(digits_text(code_digits(p))) == Ok::<PayloadView, Error>(carried(p)),
{
    let body = body_digits(p);
    let code = code_digits(p);
    lemma_body_digits(p);
    law_check_digit_verifies(body);
    assert forall|i: int| 0 <= i < code.len() implies #[trigger] code[i] < 10 by {
        if i < body.len() {
            assert(code[i] == body[i]);
        }
    }
    lemma_text_digits(code);
    let first = p.discriminator as nat / 1024 + (if names_product(p) {
        4nat
    } else {
        0
    });
    let second = (p.discriminator as nat / 256 % 4) * 16384 + p.passcode as nat % 16384;
    let third = p.passcode as nat / 16384;
    reveal_with_fuel(power10, 6);
    lemma_number_roundtrip(first, 1);
    lemma_number_roundtrip(second, 5);
    lemma_number_roundtrip(third, 4);
    let a = padded_digits(first, 1);
    assert(code[0] == a[0]);
    assert(a.drop_last().len() == 0);
    assert(number(a) == a[0]) by {
        assert(number(a.drop_last()) == 0);
    }
    assert(code.subrange(1, 6) =~= padded_digits(second, 5));
    assert(code.subrange(6, 10) =~= padded_digits(third, 4));
    if names_product(p) {
        lemma_number_roundtrip(p.vendor_id->Some_0 as nat, 5);
        lemma_number_roundtrip(p.product_id->Some_0 as nat, 5);
        assert(code.subrange(10, 15) =~= padded_digits(p.vendor_id->Some_0 as nat, 5));
        assert(code.subrange(15, 20) =~= padded_digits(p.product_id->Some_0 as nat, 5));
    }
    assert(payload_of(code) == Ok::<PayloadView, Error>(carried(p)));
}

/// A manual code loses nothing of a payload that has no more than it carries.
pub proof fn law_manual_is_lossless(p: PayloadView)
    requires
        is_payload(p),
        p.version == 0,
        p.vendor_id is Some <==> p.product_id is Some,
        p.commissioning_flow == CommissioningFlow::Standard,
        p.discovery_capabilities == 0,
        p.discriminator % 256 == 0,
    ensures
        manual_payload(digits_text(code_digits(p))) == Ok::<PayloadView, Error>(p),
{
    law_manual_roundtrip(p);
}

/// A manual code with one wrong digit is refused.
pub proof fn law_mistyped_digit_is_refused(digits: Seq<nat>, i: int, wrong: nat)
    requires
        digits.len() == 11 || digits.len() == 21,
        are_digits(digits),
        is_checked(digits),
        0 <= i < digits.len(),
        wrong < 10,
        wrong != digits[i],
    ensures
        manual_payload(digits_text(digits.update(i, wrong))) == Err::<PayloadView, Error>(
            Error::ManualCodeBadChecksum,
        ),
{
    law_single_error_is_detected(digits, i, wrong);
    lemma_text_digits(digits.update(i, wrong));
}

/// A manual code with two neighbouring digits exchanged is refused.
pub proof fn law_exchanged_digits_are_refused(digits: Seq<nat>, i: int)
    requires
        digits.len() == 11 || digits.len() == 21,
        are_digits(digits),
        is_checked(digits),
        0 <= i < digits.len() - 1,
        digits[i] != digits[i + 1],
    ensures
        manual_payload(digits_text(digits.update(i, digits[i + 1]).update(i + 1, digits[i])))
            == Err::<PayloadView, Error>(Error::ManualCodeBadChecksum),
{
    law_transposition_is_detected(digits, i);
    lemma_text_digits(digits.update(i, digits[i + 1]).update(i + 1, digits[i]));
}

/// Where the fields of a payload stand in the digits of a manual code. The first
/// digit is the upper two bits of the discriminator, and 4 more if vendor and
/// product follow; the next five are the next two bits of the discriminator above
/// the lower 14 bits of the passcode, the next four the upper bits of the passcode,
/// the next five the vendor, the next five the product.
pub proof fn law_manual_layout(p: PayloadView)
    requires
        is_payload(p),
    ensures
        ({
            let d = code_digits(p);
            let named = p.vendor_id is Some && p.product_id is Some;
            &&& d.len() == (if named {
                21int
            } else {
                11
            })
            &&& d[0] == p.discriminator / 1024 + (if named {
                4int
            } else {
                0
            })
            &&& 10000 * d[1] + 1000 * d[2] + 100 * d[3] + 10 * d[4] + d[5] == 16384 * (
            p.discriminator / 256 % 4) + p.passcode % 16384
            &&& 1000 * d[6] + 100 * d[7] + 10 * d[8] + d[9] == p.passcode / 16384
            &&& named ==> 10000 * d[10] + 1000 * d[11] + 100 * d[12] + 10 * d[13] + d[14]
                == p.vendor_id->Some_0
            &&& named ==> 10000 * d[15] + 1000 * d[16] + 100 * d[17] + 10 * d[18] + d[19]
                == p.product_id->Some_0
        }),
{
    let code = code_digits(p);
    lemma_body_digits(p);
    let first = p.discriminator as nat / 1024 + (if names_product(p) {
        4nat
    } else {
        0
    });
    let second = (p.discriminator as nat / 256 % 4) * 16384 + p.passcode as nat % 16384;
    let third = p.passcode as nat / 16384;
    reveal_with_fuel(power10, 6);
    lemma_number_roundtrip(first, 1);
    lemma_number_roundtrip(second, 5);
    lemma_number_roundtrip(third, 4);
    let a = padded_digits(first, 1);
    assert(code[0] == a[0]);
    assert(number(a) == a[0]) by {
        reveal_with_fuel(number, 2);
    }
    assert(code.subrange(1, 6) =~= padded_digits(second, 5));
    assert(code.subrange(6, 10) =~= padded_digits(third, 4));
    lemma_number_of_digits(code, 1);
    lemma_number_of_digits(code, 6);
    if names_product(p) {
        lemma_number_roundtrip(p.vendor_id->Some_0 as nat, 5);
        lemma_number_roundtrip(p.product_id->Some_0 as nat, 5);
        assert(code.subrange(10, 15) =~= padded_digits(p.vendor_id->Some_0 as nat, 5));
        assert(code.subrange(15, 20) =~= padded_digits(p.product_id->Some_0 as nat, 5));
        lemma_number_of_digits(code, 10);
        lemma_number_of_digits(code, 15);
    }
}

/// The number of four and of five digits from a place on.
proof fn lemma_number_of_digits(d: Seq<nat>, i: int)
    requires
        0 <= i <= d.len() - 4,
    ensures
        number(d.subrange(i, i + 4)) == 1000 * d[i] + 100 * d[i + 1] + 10 * d[i + 2] + d[i + 3],
        i <= d.len() - 5 ==> number(d.subrange(i, i + 5)) == 10000 * d[i] + 1000 * d[i + 1] + 100
            * d[i + 2] + 10 * d[i + 3] + d[i + 4],
{
    reveal_with_fuel(number, 6);
}

/// What the digits of a manual code stand for: the fields in the same places. Its
/// length agrees with what the first digit says, and each group of digits fits
/// the bits that it stands for.
pub proof fn law_manual_is_read(d: Seq<nat>)
    requires
        d.len() == 11 || d.len() == 21,
        are_digits(d),
    ensures
        payload_of(d) matches Ok(p) ==> {
            let second = 10000 * d[1] + 1000 * d[2] + 100 * d[3] + 10 * d[4] + d[5];
            let third = 1000 * d[6] + 100 * d[7] + 10 * d[8] + d[9];
            &&& d[0] < 8
            &&& second < 65536
            &&& third < 8192
            &&& d.len() == 21 <==> d[0] >= 4
            &&& p.discriminator == 1024 * (d[0] % 4) + 256 * (second / 16384)
            &&& p.passcode == second % 16384 + 16384 * third
            &&& p.version == 0
            &&& p.commissioning_flow == CommissioningFlow::Standard
            &&& p.discovery_capabilities == 0
            &&& d.len() == 11 ==> p.vendor_id is None && p.product_id is None
            &&& d.len() == 21 ==> p.vendor_id is Some && p.vendor_id->Some_0 == 10000 * d[10]
                + 1000 * d[11] + 100 * d[12] + 10 * d[13] + d[14]
            &&& d.len() == 21 ==> p.product_id is Some && p.product_id->Some_0 == 10000 * d[15]
                + 1000 * d[16] + 100 * d[17] + 10 * d[18] + d[19]
        },
{
    lemma_number_of_digits(d, 1);
    lemma_number_of_digits(d, 6);
    if d.len() == 21 {
        lemma_number_of_digits(d, 10);
        lemma_number_of_digits(d, 15);
    }
    assert(d[0] < 10);
}

/// A manual code is read only if it has 11 or 21 bytes, all of its characters are
/// digits, and its check digit is right; what is wrong is named in this order.
pub proof fn law_manual_form(text: Seq<char>)
    ensures
        encode_utf8(text).len() != 11 && encode_utf8(text).len() != 21 ==> manual_payload(text)
            == Err::<PayloadView, Error>(
            Error::ManualCodeWrongLength(encode_utf8(text).len() as usize),
        ),
        manual_payload(text) is Ok ==> (encode_utf8(text).len() == 11 || encode_utf8(text).len()
            == 21) && is_checked(digit_values(encode_utf8(text))) && forall|i: int|
            0 <= i < text.len() ==> '0' <= #[trigger] text[i] <= '9',
{
    if manual_payload(text) is Ok {
        lemma_all_digits(text, 0);
    }
}

/// Without a stranger all characters are digits.
proof fn lemma_all_digits(text: Seq<char>, from: nat)
    requires
        first_stranger(text, from) is None,
    ensures
        forall|i: int| from <= i < text.len() ==> '0' <= #[trigger] text[i] <= '9',
    decreases text.len() - from,
{
    if from < text.len() {
        lemma_all_digits(text, from + 1);
    }
}

/// The first character of a manual code that is no digit is named with its place.
pub proof fn law_first_stranger_is_named(text: Seq<char>, k: int)
    requires
        encode_utf8(text).len() == 11 || encode_utf8(text).len() == 21,
        0 <= k < text.len(),
        text[k] < '0' || text[k] > '9',
        forall|i: int| 0 <= i < k ==> '0' <= #[trigger] text[i] <= '9',
    ensures
        manual_payload(text) == Err::<PayloadView, Error>(
            Error::ManualCodeNonDigit(text[k], k as usize),
        ),
{
    lemma_first_stranger(text, 0, k);
}

/// The first stranger from a place on.
proof fn lemma_first_stranger(text: Seq<char>, from: nat, k: int)
    requires
        from <= k < text.len(),
        text[k] < '0' || text[k] > '9',
        forall|i: int| from <= i < k ==> '0' <= #[trigger] text[i] <= '9',
    ensures
        first_stranger(text, from) == Some(k as nat),
    decreases k - from,
{
    if from < k {
        assert('0' <= text[from as int] <= '9');
        lemma_first_stranger(text, from + 1, k);
    }
}

} // verus!
