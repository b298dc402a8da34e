//! Why a CDI GPU selection failed.

use vstd::prelude::*;

use crate::text::{append_decimal, decimal};

verus! {

/// CDI GPU selection failed.
#[derive(Debug, Clone, Copy, PartialEq, Eq, Structural)]
pub enum CdiGpuSelectionError {
    NoAvailableDevices,
    InvalidCount,
    InsufficientAvailableDevices { requested: usize, available: usize },
    MissingDefaultDevice,
}

/// The message that describes `e`.
pub open spec fn error_message(e: CdiGpuSelectionError) -> Seq<char> {
    match e {
        CdiGpuSelectionError::NoAvailableDevices => "no NVIDIA CDI GPU devices were discovered"@,
        CdiGpuSelectionError::InvalidCount => "GPU count must be greater than 0"@,
        CdiGpuSelectionError::InsufficientAvailableDevices { requested, available } =>
            "GPU count request exceeds discovered NVIDIA CDI GPU devices ("@ + decimal(
            requested as nat,
        ) + " > "@ + decimal(available as nat) + ")"@,
        CdiGpuSelectionError::MissingDefaultDevice =>
            "GPU request requires selected default CDI GPU device IDs"@,
    }
}

impl CdiGpuSelectionError {
    /// The human-readable description of this error.
    pub fn to_string(&self) -> (message: String)
        ensures
            message@ == error_message(*self),
    {
        match self {
            CdiGpuSelectionError::NoAvailableDevices => String::from_str(
                "no NVIDIA CDI GPU devices were discovered",
            ),
            CdiGpuSelectionError::InvalidCount => String::from_str(
                "GPU count must be greater than 0",
            ),
            CdiGpuSelectionError::InsufficientAvailableDevices { requested, available } => {
                let mut message = String::from_str(
                    "GPU count request exceeds discovered NVIDIA CDI GPU devices (",
                );
                append_decimal(&mut message, *requested);
                message.append(" > ");
                append_decimal(&mut message, *available);
                message.append(")");
                message
            },
            CdiGpuSelectionError::MissingDefaultDevice => String::from_str(
                "GPU request requires selected default CDI GPU device IDs",
            ),
        }
    }
}

} // verus!
