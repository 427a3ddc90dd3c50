//! Setup payloads: what a QR code or a manual pairing code says of a device.

pub mod base38;
pub mod manual_packer;
pub mod qr_packer;
pub mod verhoeff;

pub use manual_packer::{encode_manual_code, parse_manual_code};
pub use qr_packer::{encode_qr, parse_qr};

use crate::text::{decimal, push_char, push_decimal, push_text};
use vstd::prelude::*;

verus! {

/// The errors of setup payloads.
#[derive(Debug, Clone, Copy, PartialEq, Eq)]
#[non_exhaustive]
pub enum Error {
    /// The text does not start with `MT:`.
    MissingMtPrefix,
    /// A character is not in the alphabet, or no byte can end there.
    InvalidBase38Char(char, usize),
    /// The payload of a QR code is too short.
    QrPayloadWrongLength {
        /// How many bytes there are.
        got: usize,
        /// How many there should be.
        need: usize,
    },
    /// The payload of a QR code is too long.
    QrTrailingBytes {
        /// How many bytes too many there are.
        extra: usize,
    },
    /// A manual code does not have 11 or 21 digits.
    ManualCodeWrongLength(usize),
    /// A character of a manual code is no digit.
    ManualCodeNonDigit(char, usize),
    /// The check digit of a manual code is wrong.
    ManualCodeBadChecksum,
    /// A discriminator has more than 12 bits.
    DiscriminatorOutOfRange(u16),
    /// A passcode has more than 27 bits.
    PasscodeOutOfRange(u32),
    /// A passcode is too easy to guess.
    PasscodeDisallowedTrivial(u32),
    /// A commissioning flow is reserved.
    CommissioningFlowReserved(u8),
    /// A QR code needs a vendor and a product.
    QrRequiresVidPid,
    /// A custom flow needs fields of its vendor.
    CustomFlowUnsupported,
    /// A number of a manual code does not fit in its field.
    FieldOutOfRange {
        /// The field.
        field: &'static str,
        /// The number.
        value: u32,
    },
}

/// The text for each error.
pub open spec fn setup_error_text(e: Error) -> Seq<char> {
    match e {
        Error::MissingMtPrefix => "QR string is missing the `MT:` prefix"@,
        Error::InvalidBase38Char(c, at) => {
            "invalid Base38 character `"@.push(c) + "` at position "@ + decimal(at as nat)
        },
        Error::QrPayloadWrongLength { got, need } => {
            "QR payload is the wrong length: "@ + decimal(got as nat)
                + " bytes, expected exactly "@ + decimal(need as nat)
        },
        Error::QrTrailingBytes { extra } => {
            "QR payload has "@ + decimal(extra as nat)
                + " byte(s) after the fixed 11-byte block; vendor TLV blobs are not supported in this release"@
        },
        Error::ManualCodeWrongLength(got) => {
            "manual code must be 11 or 21 digits; got "@ + decimal(got as nat)
        },
        Error::ManualCodeNonDigit(c, at) => {
            "manual code contains non-digit `"@.push(c) + "` at position "@ + decimal(at as nat)
        },
        Error::ManualCodeBadChecksum => "manual code Verhoeff check digit failed"@,
        Error::DiscriminatorOutOfRange(value) => {
            "discriminator "@ + decimal(value as nat) + " exceeds the 12-bit field width"@
        },
        Error::PasscodeOutOfRange(value) => {
            "passcode "@ + decimal(value as nat) + " exceeds the 27-bit field width"@
        },
        Error::PasscodeDisallowedTrivial(value) => {
            "passcode "@ + decimal(value as nat)
                + " is in the disallowed-trivial list (spec §5.1.7.1)"@
        },
        Error::CommissioningFlowReserved(value) => {
            "commissioning flow value "@ + decimal(value as nat) + " is reserved"@
        },
        Error::QrRequiresVidPid => {
            "QR-form payload requires both vendor_id and product_id to be present"@
        },
        Error::CustomFlowUnsupported => {
            "commissioning flow `Custom` requires vendor-specific QR fields not supported by matter-rust"@
        },
        Error::FieldOutOfRange { field, value } => {
            field@ + " "@ + decimal(value as nat) + " is out of range"@
        },
    }
}

impl Error {
    /// The text for an operator.
    pub fn message(&self) -> (text: String)
        ensures
            text@ == setup_error_text(*self),
    {
        let mut text = String::new();
        match self {
            Error::MissingMtPrefix => {
                push_text(&mut text, "QR string is missing the `MT:` prefix");
            },
            Error::InvalidBase38Char(c, at) => {
                push_text(&mut text, "invalid Base38 character `");
                push_char(&mut text, *c);
                push_text(&mut text, "` at position ");
                push_decimal(&mut text, *at as u64);
            },
            Error::QrPayloadWrongLength { got, need } => {
                push_text(&mut text, "QR payload is the wrong length: ");
                push_decimal(&mut text, *got as u64);
                push_text(&mut text, " bytes, expected exactly ");
                push_decimal(&mut text, *need as u64);
            },
            Error::QrTrailingBytes { extra } => {
                push_text(&mut text, "QR payload has ");
                push_decimal(&mut text, *extra as u64);
                push_text(
                    &mut text,
                    " byte(s) after the fixed 11-byte block; vendor TLV blobs are not supported in this release",
                );
            },
            Error::ManualCodeWrongLength(got) => {
                push_text(&mut text, "manual code must be 11 or 21 digits; got ");
                push_decimal(&mut text, *got as u64);
            },
            Error::ManualCodeNonDigit(c, at) => {
                push_text(&mut text, "manual code contains non-digit `");
                push_char(&mut text, *c);
                push_text(&mut text, "` at position ");
                push_decimal(&mut text, *at as u64);
            },
            Error::ManualCodeBadChecksum => {
                push_text(&mut text, "manual code Verhoeff check digit failed");
            },
            Error::DiscriminatorOutOfRange(value) => {
                push_text(&mut text, "discriminator ");
                push_decimal(&mut text, *value as u64);
                push_text(&mut text, " exceeds the 12-bit field width");
            },
            Error::PasscodeOutOfRange(value) => {
                push_text(&mut text, "passcode ");
                push_decimal(&mut text, *value as u64);
                push_text(&mut text, " exceeds the 27-bit field width");
            },
            Error::PasscodeDisallowedTrivial(value) => {
                push_text(&mut text, "passcode ");
                push_decimal(&mut text, *value as u64);
                push_text(&mut text, " is in the disallowed-trivial list (spec §5.1.7.1)");
            },
            Error::CommissioningFlowReserved(value) => {
                push_text(&mut text, "commissioning flow value ");
                push_decimal(&mut text, *value as u64);
                push_text(&mut text, " is reserved");
            },
            Error::QrRequiresVidPid => {
                push_text(
                    &mut text,
                    "QR-form payload requires both vendor_id and product_id to be present",
                );
            },
            Error::CustomFlowUnsupported => {
                push_text(
                    &mut text,
                    "commissioning flow `Custom` requires vendor-specific QR fields not supported by matter-rust",
                );
            },
            Error::FieldOutOfRange { field, value } => {
                push_text(&mut text, field);
                push_text(&mut text, " ");
                push_decimal(&mut text, *value as u64);
                push_text(&mut text, " is out of range");
            },
        }
        proof {
            assert(text@ =~= setup_error_text(*self));
        }
        text
    }
}

/// A discriminator of 12 bits, which tells devices in commissioning apart.
#[derive(Debug, Clone, Copy, PartialEq, Eq, Hash, Structural)]
pub struct Discriminator(u16);

impl View for Discriminator {
    type V = u16;

    closed spec fn view(&self) -> u16 {
        self.0
    }
}

impl Discriminator {
    #[verifier::type_invariant]
    spec fn in_range(self) -> bool {
        self.0 <= 0x0FFF
    }

    /// The discriminator with the given number.
    pub fn new(value: u16) -> (r: Result<Discriminator, Error>)
        ensures
            match r {
                Ok(d) => value <= 0x0FFF && d@ == value,
                Err(e) => value > 0x0FFF && e == Error::DiscriminatorOutOfRange(value),
            },
    {
        if value > 0x0FFF {
            Err(Error::DiscriminatorOutOfRange(value))
        } else {
            Ok(Discriminator(value))
        }
    }

    /// The number of the discriminator.
    pub fn as_u16(self) -> (value: u16)
        ensures
            value == self@,
            value <= 0x0FFF,
    {
        proof {
            use_type_invariant(&self);
        }
        self.0
    }

    /// The short discriminator: the upper four bits.
    pub fn short(self) -> (value: u8)
        ensures
            value == self@ / 256,
    {
        proof {
            use_type_invariant(&self);
        }
        (self.0 / 256) as u8
    }
}

/// The passcodes that are too easy to guess.
pub const DISALLOWED_PASSCODES: [u32; 12] = [
    0,
    11_111_111,
    22_222_222,
    33_333_333,
    44_444_444,
    55_555_555,
    66_666_666,
    77_777_777,
    88_888_888,
    99_999_999,
    12_345_678,
    87_654_321,
];

/// Why a number is no passcode.
pub open spec fn passcode_fault(value: u32) -> Option<Error> {
    if value >= 0x800_0000 {
        Some(Error::PasscodeOutOfRange(value))
    } else if DISALLOWED_PASSCODES@.contains(value) {
        Some(Error::PasscodeDisallowedTrivial(value))
    } else {
        None
    }
}

/// The passcode of a device: a number of 27 bits that is not too easy to guess.
#[derive(Debug, Clone, Copy, PartialEq, Eq, Hash, Structural)]
pub struct Passcode(u32);

impl View for Passcode {
    type V = u32;

    closed spec fn view(&self) -> u32 {
        self.0
    }
}

impl Passcode {
    #[verifier::type_invariant]
    spec fn allowed(self) -> bool {
        passcode_fault(self.0) is None
    }

    /// The passcode with the given number.
    pub fn new(value: u32) -> (r: Result<Passcode, Error>)
        ensures
            match passcode_fault(value) {
                Some(e) => r == Err::<Passcode, Error>(e),
                None => r matches Ok(p) && p@ == value,
            },
    {
        if value >= 0x800_0000 {
            return Err(Error::PasscodeOutOfRange(value));
        }
        let mut i: usize = 0;
        while i < 12
            invariant
                i <= 12,
                value < 0x800_0000,
                DISALLOWED_PASSCODES@.len() == 12,
                forall|j: int| 0 <= j < i ==> DISALLOWED_PASSCODES@[j] != value,
            decreases 12 - i,
        {
            if DISALLOWED_PASSCODES[i] == value {
                proof {
                    assert(DISALLOWED_PASSCODES@[i as int] == value);
                }
                return Err(Error::PasscodeDisallowedTrivial(value));
            }
            i = i + 1;
        }
        Ok(Passcode(value))
    }

    /// The number of the passcode.
    pub fn as_u32(self) -> (value: u32)
        ensures
            value == self@,
            passcode_fault(value) is None,
    {
        proof {
            use_type_invariant(&self);
        }
        self.0
    }
}

/// How a device enters commissioning.
#[derive(Debug, Clone, Copy, PartialEq, Eq, Structural)]
pub enum CommissioningFlow {
    /// By itself, when it is switched on.
    Standard,
    /// When its user does something.
    UserIntent,
    /// As its vendor says.
    Custom,
}

impl CommissioningFlow {
    /// The number of the flow.
    pub open spec fn number(self) -> u8 {
        match self {
            CommissioningFlow::Standard => 0,
            CommissioningFlow::UserIntent => 1,
            CommissioningFlow::Custom => 2,
        }
    }

    /// The number of the flow.
    pub fn as_u8(self) -> (number: u8)
        ensures
            number == self.number(),
    {
        match self {
            CommissioningFlow::Standard => 0,
            CommissioningFlow::UserIntent => 1,
            CommissioningFlow::Custom => 2,
        }
    }

    /// The flow with the given number.
    pub fn from_u8(number: u8) -> (r: Result<CommissioningFlow, Error>)
        ensures
            match r {
                Ok(flow) => flow.number() == number,
                Err(e) => number > 2 && e == Error::CommissioningFlowReserved(number),
            },
    {
        match number {
            0 => Ok(CommissioningFlow::Standard),
            1 => Ok(CommissioningFlow::UserIntent),
            2 => Ok(CommissioningFlow::Custom),
            _ => Err(Error::CommissioningFlowReserved(number)),
        }
    }
}

/// The ways in which a device can be discovered: one bit each.
#[derive(Debug, Clone, Copy, PartialEq, Eq, Hash, Structural)]
pub struct DiscoveryCapabilities(u8);

impl View for DiscoveryCapabilities {
    type V = u8;

    closed spec fn view(&self) -> u8 {
        self.0
    }
}

impl DiscoveryCapabilities {
    /// No way.
    pub fn empty() -> (capabilities: Self)
        ensures
            capabilities@ == 0,
    {
        DiscoveryCapabilities(0)
    }

    /// As an access point.
    pub fn soft_ap() -> (capabilities: Self)
        ensures
            capabilities@ == 1,
    {
        DiscoveryCapabilities(1)
    }

    /// Over Bluetooth.
    pub fn ble() -> (capabilities: Self)
        ensures
            capabilities@ == 2,
    {
        DiscoveryCapabilities(2)
    }

    /// On the network.
    pub fn on_network() -> (capabilities: Self)
        ensures
            capabilities@ == 4,
    {
        DiscoveryCapabilities(4)
    }

    /// The ways with the given bits; bits without a meaning are kept.
    pub fn from_bits_retain(bits: u8) -> (capabilities: Self)
        ensures
            capabilities@ == bits,
    {
        DiscoveryCapabilities(bits)
    }

    /// The bits.
    pub fn bits(&self) -> (bits: u8)
        ensures
            bits == self@,
    {
        self.0
    }

    /// The ways of both.
    pub fn union(self, other: DiscoveryCapabilities) -> (both: Self)
        ensures
            both@ == self@ | other@,
    {
        DiscoveryCapabilities(self.0 | other.0)
    }
}

/// What a QR code or a manual code says of a device.
#[derive(Debug, Clone, Copy, PartialEq, Eq)]
pub struct SetupPayload {
    /// The version of the payload.
    pub version: u8,
    /// The vendor.
    pub vendor_id: Option<u16>,
    /// The product.
    pub product_id: Option<u16>,
    /// How the device enters commissioning.
    pub commissioning_flow: CommissioningFlow,
    /// How the device can be discovered.
    pub discovery_capabilities: DiscoveryCapabilities,
    /// The discriminator.
    pub discriminator: Discriminator,
    /// The passcode.
    pub passcode: Passcode,
}

/// The model of a payload.
#[verifier::ext_equal]
pub struct PayloadView {
    /// The version of the payload.
    pub version: u8,
    /// The vendor.
    pub vendor_id: Option<u16>,
    /// The product.
    pub product_id: Option<u16>,
    /// How the device enters commissioning.
    pub commissioning_flow: CommissioningFlow,
    /// How the device can be discovered.
    pub discovery_capabilities: u8,
    /// The discriminator.
    pub discriminator: u16,
    /// The passcode.
    pub passcode: u32,
}

impl View for SetupPayload {
    type V = PayloadView;

    open spec fn view(&self) -> PayloadView {
        PayloadView {
            version: self.version,
            vendor_id: self.vendor_id,
            product_id: self.product_id,
            commissioning_flow: self.commissioning_flow,
            discovery_capabilities: self.discovery_capabilities@,
            discriminator: self.discriminator@,
            passcode: self.passcode@,
        }
    }
}

/// A payload that exists: its discriminator and its passcode do.
pub open spec fn is_payload(p: PayloadView) -> bool {
    p.discriminator <= 0x0FFF && passcode_fault(p.passcode) is None
}

/// A passcode is good exactly if it fits in 27 bits, is not one digit eight times
/// over and not a run of digits up or down.
pub proof fn law_good_passcodes(value: u32)
    ensures
        passcode_fault(value) is None <==> value < 134_217_728 && value != 12_345_678 && value
            != 87_654_321 && forall|d: u32|
            d < 10 ==> value != #[trigger] (d * 11_111_111),
        value >= 134_217_728 ==> passcode_fault(value) == Some(Error::PasscodeOutOfRange(value)),
        value < 134_217_728 && passcode_fault(value) is Some ==> passcode_fault(value) == Some(
            Error::PasscodeDisallowedTrivial(value),
        ),
{
    let list = DISALLOWED_PASSCODES@;
    assert(list.len() == 12);
    if list.contains(value) {
        let i = choose|i: int| 0 <= i < 12 && list[i] == value;
        if i < 10 {
            let d = i as u32;
            assert(d < 10 && value == d * 11_111_111);
        }
    }
    if value == 12_345_678 {
        assert(list[10] == value);
    }
    if value == 87_654_321 {
        assert(list[11] == value);
    }
    if exists|d: u32| d < 10 && value == #[trigger] (d * 11_111_111) {
        let d = choose|d: u32| d < 10 && value == #[trigger] (d * 11_111_111);
        assert(list[d as int] == value);
    }
}

/// The texts with two values name each in its place: the length that was got
/// before the one that is needed, a character before its place.
pub proof fn law_texts_name_values(got: usize, need: usize, c: char)
    ensures
        setup_error_text(Error::QrPayloadWrongLength { got, need })
            == "QR payload is the wrong length: "@ + decimal(got as nat)
            + " bytes, expected exactly "@ + decimal(need as nat),
        setup_error_text(Error::InvalidBase38Char(c, got)) == "invalid Base38 character `"@ + seq![
            c,
        ] + "` at position "@ + decimal(got as nat),
        setup_error_text(Error::ManualCodeNonDigit(c, got)) == "manual code contains non-digit `"@
            + seq![c] + "` at position "@ + decimal(got as nat),
{
}

} // verus!
