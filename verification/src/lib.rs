//! GPU request helpers for CDI (Container Device Interface) device selection.

pub mod config;
pub mod error;
pub mod inventory;
pub mod laws;
pub mod request;
pub mod round_robin;
pub mod selection;
pub mod sorted;
pub mod text;

pub use config::CDI_GPU_DEVICE_ALL;
pub use error::CdiGpuSelectionError;
pub use inventory::CdiGpuInventory;
pub use request::{DriverGpuResourceRequirement, cdi_gpu_default_device_count, cdi_gpu_device_ids};
pub use round_robin::CdiGpuRoundRobin;
