//! What the commissioning state machine and the driver say to each other.

use vstd::prelude::*;

verus! {

/// The stages of commissioning.
#[derive(Copy, Clone, Debug, PartialEq, Eq, Structural)]
#[non_exhaustive]
pub enum Stage {
    /// The session with the passcode is set up.
    SecurePairing,
    /// The limits of the device are read.
    ReadCommissioningInfo,
    /// The network interfaces of the device are read.
    ReadNetworkCommissioningInfo,
    /// The failsafe is armed.
    ArmFailsafe,
    /// The regulatory domain is set.
    ConfigRegulatory,
    /// The Wi-Fi credentials are installed.
    WiFiNetworkSetup,
    /// The device joins the Wi-Fi network.
    WiFiNetworkEnable,
    /// Commissioning is declared complete.
    SendComplete,
}

/// The errors of the commissioning state machine.
#[derive(Copy, Clone, Debug, PartialEq, Eq, Structural)]
#[non_exhaustive]
pub enum CommissioningError {
    /// The response at the given stage is malformed.
    MalformedResponse(Stage),
}

/// What an operator can do about a refused network.
#[derive(Copy, Clone, Debug, PartialEq, Eq, Structural)]
#[non_exhaustive]
pub enum RemediationHint {
    /// Nothing in particular.
    NoHint,
    /// Check the name of the network.
    CheckSsid,
    /// Check the passphrase.
    CheckPassphrase,
    /// Check the regulatory region.
    CheckRegulatoryRegion,
    /// Use a security mode that the device supports.
    UpgradeSecurityMode,
    /// The device has no room for another network.
    DeviceNetworkSlotsFull,
    /// The device cannot set up its IP stack.
    DeviceIpStackFailure,
}

/// What the state machine waits for.
#[derive(Copy, Clone, Debug, PartialEq, Eq, Structural)]
#[non_exhaustive]
pub enum Expectation {
    /// The limits of the device.
    CommissioningInfo,
    /// The network interfaces of the device.
    NetworkCommissioningInfo,
    /// The answer to arming the failsafe.
    ArmFailsafeResponse,
    /// The answer to any other command.
    CommandResponse,
    /// That the operational session failed.
    CaseFailed,
}

/// The session that an action runs over.
#[derive(Copy, Clone, Debug, PartialEq, Eq, Structural)]
pub enum SessionContext {
    /// The session that was set up with the passcode.
    Pase,
    /// The operational session.
    Case,
}

} // verus!
