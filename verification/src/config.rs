//! Shared configuration constants.

use vstd::prelude::*;

verus! {

/// The CDI device ID that requests every NVIDIA GPU at once.
pub const CDI_GPU_DEVICE_ALL: &'static str = "nvidia.com/gpu=all";

} // verus!
