//! Messages of the Interaction Model, as far as commissioning needs them: one
//! command per invoke, and reads of concrete attributes.

pub mod error;
pub mod invoke;
pub mod read;
pub mod status;

pub use error::ImError;
pub use invoke::{build_invoke_request, InvokeResponse};
pub use read::{build_read_request, AttributePath, ReportData};
pub use status::{build_status_response, ImStatus};

use vstd::prelude::*;

verus! {

/// The revision of the Interaction Model, which every message carries under tag
/// 255.
pub const IM_REVISION: u8 = 11;

/// The path of a command.
#[derive(Copy, Clone, Debug, PartialEq, Eq, Structural)]
pub struct CommandPath {
    /// The endpoint.
    pub endpoint: u16,
    /// The cluster.
    pub cluster: u32,
    /// The command.
    pub command: u32,
}

} // verus!
