//! Resolving a driver's GPU request into CDI device IDs.

use vstd::prelude::*;

use crate::error::CdiGpuSelectionError;
use crate::inventory::clone_strings;

verus! {

/// The GPU part of a driver's resource request: explicit CDI device IDs, or
/// a number of GPUs for the driver to pick.
#[derive(Debug, Default)]
pub struct DriverGpuResourceRequirement {
    pub device_ids: Vec<String>,
    pub count: Option<u32>,
}

/// The number of GPUs requested when no count is given.
pub open spec fn requested_count(gpu: &DriverGpuResourceRequirement) -> u32 {
    match gpu.count {
        Some(c) => c,
        None => 1,
    }
}

/// What `cdi_gpu_default_device_count` returns for `gpu`.
pub open spec fn default_device_count(gpu: Option<&DriverGpuResourceRequirement>) -> Result<
    Option<usize>,
    CdiGpuSelectionError,
> {
    match gpu {
        None => Ok(None),
        Some(g) => if g.device_ids@.len() > 0 {
            Ok(None)
        } else if requested_count(g) == 0 {
            Err(CdiGpuSelectionError::InvalidCount)
        } else {
            Ok(Some(requested_count(g) as usize))
        },
    }
}

/// What `cdi_gpu_device_ids` returns for `gpu` and the driver-selected
/// devices `selected`.
pub open spec fn resolved_device_ids(
    gpu: Option<&DriverGpuResourceRequirement>,
    selected: Option<Seq<String>>,
) -> Result<Option<Seq<String>>, CdiGpuSelectionError> {
    match gpu {
        None => Ok(None),
        Some(g) => if g.device_ids@.len() > 0 {
            Ok(Some(g.device_ids@))
        } else if requested_count(g) == 0 {
            Err(CdiGpuSelectionError::InvalidCount)
        } else {
            match selected {
                None => Err(CdiGpuSelectionError::MissingDefaultDevice),
                Some(devices) => if devices.len() != requested_count(g) as nat {
                    Err(CdiGpuSelectionError::MissingDefaultDevice)
                } else {
                    Ok(Some(devices))
                },
            }
        },
    }
}

/// The elements of an optional slice.
pub open spec fn slice_view(s: Option<&[String]>) -> Option<Seq<String>> {
    match s {
        Some(s) => Some(s@),
        None => None,
    }
}

/// The elements of an optional resolved list of device IDs.
pub open spec fn resolved_views(r: Result<Option<Vec<String>>, CdiGpuSelectionError>) -> Result<
    Option<Seq<String>>,
    CdiGpuSelectionError,
> {
    match r {
        Ok(Some(v)) => Ok(Some(v@)),
        Ok(None) => Ok(None),
        Err(e) => Err(e),
    }
}

/// Return the number of driver-selected CDI GPU IDs needed for this request.
///
/// `None` means no GPU was requested or explicit device IDs were supplied.
pub fn cdi_gpu_default_device_count(gpu: Option<&DriverGpuResourceRequirement>) -> (count: Result<
    Option<usize>,
    CdiGpuSelectionError,
>)
    ensures
        count == default_device_count(gpu),
        gpu is None ==> count == Ok::<Option<usize>, CdiGpuSelectionError>(None),
        gpu matches Some(g) && g.device_ids@.len() > 0 ==> count == Ok::<
            Option<usize>,
            CdiGpuSelectionError,
        >(None),
        count matches Ok(Some(n)) ==> n >= 1,
{
    let gpu = match gpu {
        Some(gpu) => gpu,
        None => {
            return Ok(None);
        },
    };
    if !gpu.device_ids.is_empty() {
        return Ok(None);
    }
    let requested: u32 = match gpu.count {
        Some(c) => c,
        None => 1,
    };
    let count = requested as usize;
    if count == 0 {
        return Err(CdiGpuSelectionError::InvalidCount);
    }
    Ok(Some(count))
}

/// Resolve a driver GPU request into CDI device identifiers.
///
/// `None` means no GPU was requested. A GPU request with explicit device IDs
/// passes through unchanged. A GPU request with no explicit device IDs uses the
/// driver-selected default CDI IDs.
pub fn cdi_gpu_device_ids(
    gpu: Option<&DriverGpuResourceRequirement>,
    selected_default_devices: Option<&[String]>,
) -> (ids: Result<Option<Vec<String>>, CdiGpuSelectionError>)
    ensures
        resolved_views(ids) == resolved_device_ids(gpu, slice_view(selected_default_devices)),
        gpu is None ==> ids matches Ok(None),
        gpu is Some && gpu->0.device_ids@.len() > 0 ==> (ids matches Ok(Some(v)) && v@
            == gpu->0.device_ids@),
        gpu is Some && gpu->0.device_ids@.len() == 0 ==> (ids matches Ok(Some(v)) ==> (
        selected_default_devices is Some && v@ == selected_default_devices->0@)),
{
    let gpu = match gpu {
        Some(gpu) => gpu,
        None => {
            return Ok(None);
        },
    };
    if !gpu.device_ids.is_empty() {
        return Ok(Some(clone_strings(gpu.device_ids.as_slice())));
    }
    let requested = match cdi_gpu_default_device_count(Some(gpu)) {
        Ok(Some(requested)) => requested,
        Ok(None) => vstd::pervasive::unreached(),
        Err(e) => {
            return Err(e);
        },
    };
    let devices = match selected_default_devices {
        Some(devices) => devices,
        None => {
            return Err(CdiGpuSelectionError::MissingDefaultDevice);
        },
    };
    if devices.len() != requested {
        return Err(CdiGpuSelectionError::MissingDefaultDevice);
    }
    Ok(Some(clone_strings(devices)))
}

} // verus!
