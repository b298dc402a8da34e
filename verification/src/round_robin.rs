//! The shared round-robin cursor for default CDI GPU selection.

use std::sync::atomic::AtomicUsize;
use std::sync::atomic::Ordering;

use vstd::prelude::*;

use crate::error::CdiGpuSelectionError;
use crate::inventory::{CdiGpuInventory, result_views, string_views};
use crate::selection::{
    is_default_selection, lemma_rotation_views, lemma_selection_len, rotation, select_round_robin,
};

verus! {

/// Concurrency-safe round-robin cursor for default CDI GPU selection.
#[derive(Debug, Default)]
pub struct CdiGpuRoundRobin {
    next: AtomicUsize,
}

impl CdiGpuRoundRobin {
    /// A cursor at position 0. The position lives in an `AtomicUsize`, whose
    /// value has no specification, so no clause states it.
    #[must_use]
    pub fn new() -> Self {
        Self { next: AtomicUsize::new(0) }
    }

    /// The cursor position, advanced by `count` when `consume` holds. Other
    /// threads share the cursor, so nothing is known of the value returned.
    fn cursor(&self, count: usize, consume: bool) -> usize {
        if consume {
            self.next.fetch_add(count, Ordering::Relaxed)
        } else {
            self.next.load(Ordering::Relaxed)
        }
    }

    /// Return the next default device ID and advance the cursor.
    pub fn next_default_device_id(&self, inventory: &CdiGpuInventory) -> (device: Result<
        String,
        CdiGpuSelectionError,
    >)
        ensures
            is_default_selection(inventory@, 1, single_views(device)),
    {
        let devices = self.next_default_device_ids(inventory, 1);
        proof {
            lemma_selection_len(inventory@, 1, result_views(devices));
        }
        first_device(devices)
    }

    /// Return the current default device ID without advancing the cursor.
    pub fn peek_default_device_id(&self, inventory: &CdiGpuInventory) -> (device: Result<
        String,
        CdiGpuSelectionError,
    >)
        ensures
            is_default_selection(inventory@, 1, single_views(device)),
    {
        let devices = self.peek_default_device_ids(inventory, 1);
        proof {
            lemma_selection_len(inventory@, 1, result_views(devices));
        }
        first_device(devices)
    }

    /// Return the next default device IDs and advance the cursor by `count`.
    pub fn next_default_device_ids(&self, inventory: &CdiGpuInventory, count: usize) -> (devices:
        Result<Vec<String>, CdiGpuSelectionError>)
        ensures
            is_default_selection(inventory@, count, result_views(devices)),
    {
        self.selected_default_device_ids(inventory, count, true)
    }

    /// Return the current default device IDs without advancing the cursor.
    pub fn peek_default_device_ids(&self, inventory: &CdiGpuInventory, count: usize) -> (devices:
        Result<Vec<String>, CdiGpuSelectionError>)
        ensures
            is_default_selection(inventory@, count, result_views(devices)),
    {
        self.selected_default_device_ids(inventory, count, false)
    }

    fn selected_default_device_ids(
        &self,
        inventory: &CdiGpuInventory,
        count: usize,
        consume: bool,
    ) -> (devices: Result<Vec<String>, CdiGpuSelectionError>)
        ensures
            is_default_selection(inventory@, count, result_views(devices)),
    {
        if count == 0 {
            return Err(CdiGpuSelectionError::InvalidCount);
        }
        let devices = match inventory.default_device_family() {
            Ok(devices) => devices,
            Err(e) => {
                return Err(e);
            },
        };
        if count > devices.len() {
            return Err(
                CdiGpuSelectionError::InsufficientAvailableDevices {
                    requested: count,
                    available: devices.len(),
                },
            );
        }
        let base = self.cursor(count, consume);
        let selected = select_round_robin(devices.as_slice(), count, base);
        proof {
            lemma_rotation_views(devices@, base as int, count as nat);
            assert(result_views(Ok(selected)) == Ok::<_, CdiGpuSelectionError>(
                rotation(string_views(devices@), base as int, count as nat),
            ));
        }
        Ok(selected)
    }
}

/// A single-device result, with the device's text as a one-element sequence.
pub open spec fn single_views(r: Result<String, CdiGpuSelectionError>) -> Result<
    Seq<Seq<char>>,
    CdiGpuSelectionError,
> {
    match r {
        Ok(s) => Ok(seq![s@]),
        Err(e) => Err(e),
    }
}

/// The first of the selected devices.
fn first_device(devices: Result<Vec<String>, CdiGpuSelectionError>) -> (device: Result<
    String,
    CdiGpuSelectionError,
>)
    requires
        devices matches Ok(v) ==> v@.len() == 1,
    ensures
        single_views(device) == result_views(devices),
{
    match devices {
        Ok(v) => {
            let first = v[0].clone();
            assert(string_views(v@) =~= seq![first@]);
            Ok(first)
        },
        Err(e) => Err(e),
    }
}

} // verus!
