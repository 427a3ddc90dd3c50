//! Vendor and product identifiers, and how the subject of an attestation
//! certificate carries them.

use crate::text::{digit_char, padded_hex, push_padded_hex};
use vstd::prelude::*;
use vstd::utf8::{encode_utf8, is_ascii_chars};

verus! {

/// A vendor identifier.
#[derive(Debug, Clone, Copy, PartialEq, Eq, Hash, Structural)]
pub struct VendorId(u16);

/// A product identifier.
#[derive(Debug, Clone, Copy, PartialEq, Eq, Hash, Structural)]
pub struct ProductId(u16);

impl View for VendorId {
    type V = u16;

    closed spec fn view(&self) -> u16 {
        self.0
    }
}

impl View for ProductId {
    type V = u16;

    closed spec fn view(&self) -> u16 {
        self.0
    }
}

/// The vendor with the given number.
pub closed spec fn vendor(number: u16) -> VendorId {
    VendorId(number)
}

/// A vendor is known by its number.
pub proof fn lemma_vendor(vid: VendorId)
    ensures
        vid == vendor(vid@),
{
}

impl VendorId {
    /// The vendor with the given number.
    pub fn new(value: u16) -> (vid: VendorId)
        ensures
            vid@ == value,
    {
        VendorId(value)
    }

    /// The number of the vendor.
    pub fn as_u16(self) -> (value: u16)
        ensures
            value == self@,
    {
        self.0
    }

    /// The number as four upper-case hexadecimal digits.
    pub fn to_hex(self) -> (text: String)
        ensures
            text@ == padded_hex(self@ as nat, 4),
    {
        let mut text = String::new();
        push_padded_hex(&mut text, self.0 as u64, 4);
        proof {
            assert(text@ =~= padded_hex(self@ as nat, 4));
        }
        text
    }
}

impl ProductId {
    /// The product with the given number.
    pub fn new(value: u16) -> (pid: ProductId)
        ensures
            pid@ == value,
    {
        ProductId(value)
    }

    /// The number of the product.
    pub fn as_u16(self) -> (value: u16)
        ensures
            value == self@,
    {
        self.0
    }

    /// The number as four upper-case hexadecimal digits.
    pub fn to_hex(self) -> (text: String)
        ensures
            text@ == padded_hex(self@ as nat, 4),
    {
        let mut text = String::new();
        push_padded_hex(&mut text, self.0 as u64, 4);
        proof {
            assert(text@ =~= padded_hex(self@ as nat, 4));
        }
        text
    }
}

/// What is wrong with an identifier in a subject.
#[derive(Copy, Clone, Debug, PartialEq, Eq)]
pub enum MatterDnError {
    /// The attribute is no text.
    NonUtf8Value,
    /// The text does not take four bytes.
    WrongLength {
        /// How many bytes it takes.
        actual: usize,
    },
    /// The text is no hexadecimal number.
    NotHex,
    /// The number is not written in upper case.
    NotUppercase,
}

/// An attribute of a distinguished name.
#[derive(Debug, Clone, PartialEq, Eq)]
pub struct NameAttribute {
    /// The encoded object identifier of the attribute's type.
    pub oid: Vec<u8>,
    /// The value, if it is text.
    pub value: Option<String>,
}

/// The model of an attribute of a distinguished name.
#[verifier::ext_equal]
pub struct NameAttributeView {
    /// The encoded object identifier of the attribute's type.
    pub oid: Seq<u8>,
    /// The value, if it is text.
    pub value: Option<Seq<char>>,
}

impl View for NameAttribute {
    type V = NameAttributeView;

    open spec fn view(&self) -> NameAttributeView {
        NameAttributeView {
            oid: self.oid@,
            value: match self.value {
                Some(text) => Some(text@),
                None => None,
            },
        }
    }
}

/// The encoding of `1.3.6.1.4.1.37244.2.1`, the type of a vendor identifier.
pub const MATTER_VID_OID: [u8; 10] = [0x2B, 0x06, 0x01, 0x04, 0x01, 0x82, 0xA2, 0x7C, 0x02, 0x01];

/// The encoding of `1.3.6.1.4.1.37244.2.2`, the type of a product identifier.
pub const MATTER_PID_OID: [u8; 10] = [0x2B, 0x06, 0x01, 0x04, 0x01, 0x82, 0xA2, 0x7C, 0x02, 0x02];

/// The value of a hexadecimal digit, or 16 for a byte that is none.
pub open spec fn hex_digit_value(b: u8) -> nat {
    if 48 <= b <= 57 {
        (b - 48) as nat
    } else if 65 <= b <= 70 {
        (b - 55) as nat
    } else if 97 <= b <= 102 {
        (b - 87) as nat
    } else {
        16
    }
}

/// Whether a byte is a decimal digit or one of `A` to `F`.
pub open spec fn upper_hex_digit(b: u8) -> bool {
    48 <= b <= 57 || 65 <= b <= 70
}

/// The identifier that the text of an attribute stands for: four upper-case
/// hexadecimal digits. A leading plus sign is tolerated by the number, but not
/// by the notation.
pub open spec fn identifier_value(text: Seq<u8>) -> Result<u16, MatterDnError> {
    if text.len() != 4 {
        Err(MatterDnError::WrongLength { actual: text.len() as usize })
    } else if !((hex_digit_value(text[0]) < 16 || text[0] == 43) && hex_digit_value(text[1]) < 16
        && hex_digit_value(text[2]) < 16 && hex_digit_value(text[3]) < 16) {
        Err(MatterDnError::NotHex)
    } else if !(upper_hex_digit(text[0]) && upper_hex_digit(text[1]) && upper_hex_digit(text[2])
        && upper_hex_digit(text[3])) {
        Err(MatterDnError::NotUppercase)
    } else {
        Ok(
            (4096 * hex_digit_value(text[0]) + 256 * hex_digit_value(text[1]) + 16
                * hex_digit_value(text[2]) + hex_digit_value(text[3])) as u16,
        )
    }
}

/// The identifier in a distinguished name: that of the first attribute of the
/// given type, nothing where there is none.
pub open spec fn name_identifier(name: Seq<NameAttributeView>, oid: Seq<u8>) -> Result<
    Option<u16>,
    MatterDnError,
>
    decreases name.len(),
{
    if name.len() == 0 {
        Ok(None)
    } else if name[0].oid == oid {
        match name[0].value {
            None => Err(MatterDnError::NonUtf8Value),
            Some(text) => match identifier_value(encode_utf8(text)) {
                Err(e) => Err(e),
                Ok(v) => Ok(Some(v)),
            },
        }
    } else {
        name_identifier(name.skip(1), oid)
    }
}

/// The models of the attributes of a distinguished name.
pub open spec fn name_view(name: Seq<NameAttribute>) -> Seq<NameAttributeView> {
    name.map_values(|a: NameAttribute| a@)
}

fn digit_value(b: u8) -> (v: u16)
    ensures
        v == hex_digit_value(b),
{
    if 48 <= b && b <= 57 {
        (b - 48) as u16
    } else if 65 <= b && b <= 70 {
        (b - 55) as u16
    } else if 97 <= b && b <= 102 {
        (b - 87) as u16
    } else {
        16
    }
}

fn is_upper_hex(b: u8) -> (yes: bool)
    ensures
        yes == upper_hex_digit(b),
{
    (48 <= b && b <= 57) || (65 <= b && b <= 70)
}

/// The identifier that the text of an attribute stands for.
pub fn parse_identifier(text: &[u8]) -> (r: Result<u16, MatterDnError>)
    ensures
        r == identifier_value(text@),
{
    if text.len() != 4 {
        return Err(MatterDnError::WrongLength { actual: text.len() });
    }
    let (a, b, c, d) = (text[0], text[1], text[2], text[3]);
    if !((digit_value(a) < 16 || a == 43) && digit_value(b) < 16 && digit_value(c) < 16
        && digit_value(d) < 16) {
        return Err(MatterDnError::NotHex);
    }
    if !(is_upper_hex(a) && is_upper_hex(b) && is_upper_hex(c) && is_upper_hex(d)) {
        return Err(MatterDnError::NotUppercase);
    }
    Ok(4096 * digit_value(a) + 256 * digit_value(b) + 16 * digit_value(c) + digit_value(d))
}

/// Whether two byte strings are equal.
pub(crate) fn same_bytes(a: &[u8], b: &[u8]) -> (equal: bool)
    ensures
        equal == (a@ == b@),
{
    if a.len() != b.len() {
        return false;
    }
    let mut i: usize = 0;
    while i < a.len()
        invariant
            i <= a@.len(),
            a@.len() == b@.len(),
            forall|j: int| 0 <= j < i ==> a@[j] == b@[j],
        decreases a@.len() - i,
    {
        if a[i] != b[i] {
            return false;
        }
        i = i + 1;
    }
    proof {
        assert(a@ =~= b@);
    }
    true
}

/// The identifier in a distinguished name.
pub fn extract_matter_u16(name: &Vec<NameAttribute>, oid: &[u8]) -> (r: Result<
    Option<u16>,
    MatterDnError,
>)
    ensures
        r == name_identifier(name_view(name@), oid@),
{
    let ghost view = name_view(name@);
    let mut i: usize = 0;
    proof {
        assert(view.skip(0) =~= view);
    }
    while i < name.len()
        invariant
            i <= name@.len(),
            view == name_view(name@),
            name_identifier(view, oid@) == name_identifier(view.skip(i as int), oid@),
        decreases name@.len() - i,
    {
        let attribute = &name[i];
        proof {
            assert(view.skip(i as int)[0] == attribute@);
            assert(view.skip(i as int).skip(1) =~= view.skip(i + 1));
        }
        if same_bytes(attribute.oid.as_slice(), oid) {
            return match &attribute.value {
                None => Err(MatterDnError::NonUtf8Value),
                Some(text) => match parse_identifier(text.as_str().as_bytes()) {
                    Err(e) => Err(e),
                    Ok(v) => Ok(Some(v)),
                },
            };
        }
        i = i + 1;
    }
    proof {
        assert(view.skip(i as int).len() == 0);
    }
    Ok(None)
}

/// The vendor in a distinguished name.
pub fn extract_vid(name: &Vec<NameAttribute>) -> (r: Result<Option<VendorId>, MatterDnError>)
    ensures
        match name_identifier(name_view(name@), MATTER_VID_OID@) {
            Err(e) => r == Err::<Option<VendorId>, MatterDnError>(e),
            Ok(None) => r == Ok::<Option<VendorId>, MatterDnError>(None),
            Ok(Some(v)) => r matches Ok(Some(vid)) && vid@ == v,
        },
{
    match extract_matter_u16(name, MATTER_VID_OID.as_slice()) {
        Err(e) => Err(e),
        Ok(None) => Ok(None),
        Ok(Some(v)) => Ok(Some(VendorId::new(v))),
    }
}

/// The product in a distinguished name.
pub fn extract_pid(name: &Vec<NameAttribute>) -> (r: Result<Option<ProductId>, MatterDnError>)
    ensures
        match name_identifier(name_view(name@), MATTER_PID_OID@) {
            Err(e) => r == Err::<Option<ProductId>, MatterDnError>(e),
            Ok(None) => r == Ok::<Option<ProductId>, MatterDnError>(None),
            Ok(Some(v)) => r matches Ok(Some(pid)) && pid@ == v,
        },
{
    match extract_matter_u16(name, MATTER_PID_OID.as_slice()) {
        Err(e) => Err(e),
        Ok(None) => Ok(None),
        Ok(Some(v)) => Ok(Some(ProductId::new(v))),
    }
}

/// Every identifier is read back from its four upper-case digits.
pub proof fn law_identifier_roundtrip(value: u16)
    ensures
        identifier_value(padded_hex(value as nat, 4).map_values(|c: char| c as u8)) == Ok::<
            u16,
            MatterDnError,
        >(value),
        is_ascii_chars(padded_hex(value as nat, 4)),
{
    reveal_with_fuel(padded_hex, 5);
    let n = value as nat;
    let digits = padded_hex(n, 4);
    assert(digits =~= seq![
        digit_char(n / 16 / 16 / 16 % 16),
        digit_char(n / 16 / 16 % 16),
        digit_char(n / 16 % 16),
        digit_char(n % 16),
    ]);
    let text = digits.map_values(|c: char| c as u8);
    assert(hex_digit_value(text[0]) == n / 16 / 16 / 16 % 16);
    assert(hex_digit_value(text[1]) == n / 16 / 16 % 16);
    assert(hex_digit_value(text[2]) == n / 16 % 16);
    assert(hex_digit_value(text[3]) == n % 16);
}

/// Four digits, each from 0 to 9 or from A to F, stand for the number that they
/// spell, the first one counting 4096.
pub proof fn law_identifier_digits(text: Seq<u8>, a: nat, b: nat, c: nat, d: nat)
    requires
        a < 16 && b < 16 && c < 16 && d < 16,
        text.len() == 4,
        text[0] == (if a < 10 {
            48 + a
        } else {
            55 + a
        }),
        text[1] == (if b < 10 {
            48 + b
        } else {
            55 + b
        }),
        text[2] == (if c < 10 {
            48 + c
        } else {
            55 + c
        }),
        text[3] == (if d < 10 {
            48 + d
        } else {
            55 + d
        }),
    ensures
        identifier_value(text) matches Ok(v) && v == 4096 * a + 256 * b + 16 * c + d,
{
}

/// Nothing else is an identifier: other lengths are named, and each byte has to be
/// a digit or a letter from A to F.
pub proof fn law_identifier_form(text: Seq<u8>)
    requires
        text.len() <= usize::MAX,
    ensures
        text.len() != 4 ==> (identifier_value(text) matches Err(MatterDnError::WrongLength {
            actual,
        }) && actual == text.len()),
        identifier_value(text) is Ok ==> text.len() == 4 && forall|i: int|
            0 <= i < 4 ==> 0x30 <= #[trigger] text[i] <= 0x39 || 0x41 <= text[i] <= 0x46,
{
}

/// The identifier in a name is that of the first attribute with the wanted type;
/// a name without one has none.
pub proof fn law_first_attribute_counts(name: Seq<NameAttributeView>, oid: Seq<u8>, i: int)
    requires
        0 <= i <= name.len(),
        forall|j: int| 0 <= j < i ==> (#[trigger] name[j]).oid != oid,
        i < name.len() ==> name[i].oid == oid,
    ensures
        i == name.len() ==> name_identifier(name, oid) == Ok::<Option<u16>, MatterDnError>(None),
        i < name.len() && name[i].value is None ==> name_identifier(name, oid) == Err::<
            Option<u16>,
            MatterDnError,
        >(MatterDnError::NonUtf8Value),
        i < name.len() && name[i].value is Some ==> name_identifier(name, oid) == (
        match identifier_value(encode_utf8(name[i].value->Some_0)) {
            Ok(v) => Ok(Some(v)),
            Err(e) => Err(e),
        }),
    decreases i,
{
    if i > 0 {
        let rest = name.skip(1);
        assert(name[0].oid != oid);
        assert forall|j: int| 0 <= j < i - 1 implies (#[trigger] rest[j]).oid != oid by {
            assert(rest[j] == name[j + 1]);
        }
        law_first_attribute_counts(rest, oid, i - 1);
    }
}

} // verus!
