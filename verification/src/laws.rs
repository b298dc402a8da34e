//! Properties that hold across the library's operations.

use vstd::prelude::*;

use crate::config::CDI_GPU_DEVICE_ALL;
use crate::error::CdiGpuSelectionError;
use crate::inventory::{
    accepted_ids, default_device_family, index_order, indexed_pred, is_indexed_id,
    is_inventory_of, is_normalized_id, is_normalized_inventory, is_uuid_style_id,
    lemma_index_order_strict_total, lemma_sorted_by_ensures, normalize_device_id, sorted_by,
    uuid_style_pred,
};
use crate::request::{DriverGpuResourceRequirement, default_device_count, resolved_device_ids};
use crate::selection::{is_default_selection, rotation};
use crate::sorted::{
    DeviceId, lemma_lex_order_strict_total, lemma_strictly_sorted_no_duplicates,
    lemma_strictly_sorted_unique, lex_order,
};

verus! {

/// An inventory depends only on which IDs were reported: the order of the
/// reported IDs, repeats among them, surrounding white space and non-NVIDIA
/// IDs make no difference.
pub proof fn law_inventory_ignores_order_and_duplicates(
    raw1: Seq<Seq<char>>,
    raw2: Seq<Seq<char>>,
    inventory1: Seq<DeviceId>,
    inventory2: Seq<DeviceId>,
)
    requires
        is_inventory_of(inventory1, raw1),
        is_inventory_of(inventory2, raw2),
        accepted_ids(raw1) == accepted_ids(raw2),
    ensures
        inventory1 == inventory2,
{
    lemma_lex_order_strict_total();
    lemma_strictly_sorted_unique(inventory1, inventory2, lex_order());
}

/// Building an inventory from the IDs of an inventory gives it back.
pub proof fn law_inventory_rebuild_is_identity(inventory: Seq<DeviceId>, rebuilt: Seq<DeviceId>)
    requires
        is_normalized_inventory(inventory),
        is_inventory_of(rebuilt, inventory),
    ensures
        rebuilt == inventory,
{
    lemma_lex_order_strict_total();
    assert(accepted_ids(inventory) =~= inventory.to_set()) by {
        assert forall|x: DeviceId| inventory.to_set().contains(x) implies accepted_ids(
            inventory,
        ).contains(x) by {
            let i = choose|i: int| 0 <= i < inventory.len() && inventory[i] == x;
            assert(is_normalized_id(inventory[i]));
            assert(normalize_device_id(inventory[i]) == Some(x));
        }
        assert forall|x: DeviceId| accepted_ids(inventory).contains(x) implies inventory.to_set().contains(
            x,
        ) by {
            let i = choose|i: int|
                0 <= i < inventory.len() && normalize_device_id(inventory[i]) == Some(x);
            assert(is_normalized_id(inventory[i]));
            assert(inventory[i] == x);
        }
    }
    lemma_strictly_sorted_unique(rebuilt, inventory, lex_order());
}

/// The default family is never empty, holds no ID twice, takes its IDs from
/// the inventory, and never mixes naming families: it is all indexed IDs, or
/// all UUID-style IDs, or the single all-GPUs ID.
pub proof fn law_default_family_is_one_naming_family(ids: Seq<DeviceId>)
    ensures
        default_device_family(ids) matches Ok(family) ==> {
            &&& family.len() > 0
            &&& family.no_duplicates()
            &&& forall|i: int| 0 <= i < family.len() ==> ids.contains(#[trigger] family[i])
            &&& {
                ||| forall|i: int| 0 <= i < family.len() ==> is_indexed_id(#[trigger] family[i])
                ||| forall|i: int|
                    0 <= i < family.len() ==> !is_indexed_id(#[trigger] family[i])
                        && is_uuid_style_id(family[i])
                ||| family == seq![CDI_GPU_DEVICE_ALL@]
            }
        },
{
    lemma_index_order_strict_total();
    lemma_lex_order_strict_total();
    let indexed = ids.filter(indexed_pred());
    let uuid_style = ids.filter(uuid_style_pred());
    if indexed.len() > 0 {
        lemma_sorted_by_ensures(indexed, index_order());
        let family = sorted_by(indexed, index_order());
        lemma_strictly_sorted_no_duplicates(family, index_order());
        assert(indexed.to_set().contains(indexed[0]));
        assert(family.len() > 0) by {
            if family.len() == 0 {
                assert(family.to_set() =~= Set::<DeviceId>::empty());
            }
        }
        assert forall|i: int| 0 <= i < family.len() implies ids.contains(#[trigger] family[i])
            && is_indexed_id(family[i]) by {
            assert(family.to_set().contains(family[i]));
            let j = choose|j: int| 0 <= j < indexed.len() && indexed[j] == family[i];
            ids.lemma_filter_pred(indexed_pred(), j);
            assert(indexed.contains(family[i]));
            ids.lemma_filter_contains_rev(indexed_pred(), family[i]);
        }
    } else if uuid_style.len() > 0 {
        lemma_sorted_by_ensures(uuid_style, lex_order());
        let family = sorted_by(uuid_style, lex_order());
        lemma_strictly_sorted_no_duplicates(family, lex_order());
        assert(uuid_style.to_set().contains(uuid_style[0]));
        assert(family.len() > 0) by {
            if family.len() == 0 {
                assert(family.to_set() =~= Set::<DeviceId>::empty());
            }
        }
        assert forall|i: int| 0 <= i < family.len() implies ids.contains(#[trigger] family[i])
            && !is_indexed_id(family[i]) && is_uuid_style_id(family[i]) by {
            assert(family.to_set().contains(family[i]));
            let j = choose|j: int| 0 <= j < uuid_style.len() && uuid_style[j] == family[i];
            ids.lemma_filter_pred(uuid_style_pred(), j);
            assert(uuid_style.contains(family[i]));
            ids.lemma_filter_contains_rev(uuid_style_pred(), family[i]);
            let k = choose|k: int| 0 <= k < ids.len() && ids[k] == family[i];
            if is_indexed_id(family[i]) {
                ids.lemma_filter_contains(indexed_pred(), k);
            }
        }
    } else if ids.contains(CDI_GPU_DEVICE_ALL@) {
        let family = seq![CDI_GPU_DEVICE_ALL@];
        assert(family[0] == CDI_GPU_DEVICE_ALL@);
    }
}

/// A default selection holds the requested number of devices, all from the
/// inventory, and no device twice.
pub proof fn law_default_selection_distinct(
    ids: Seq<DeviceId>,
    count: usize,
    selected: Seq<DeviceId>,
)
    requires
        is_default_selection(ids, count, Ok(selected)),
    ensures
        selected.len() == count,
        selected.no_duplicates(),
        forall|i: int| 0 <= i < selected.len() ==> ids.contains(#[trigger] selected[i]),
{
    law_default_family_is_one_naming_family(ids);
    let family = default_device_family(ids)->Ok_0;
    let base = choose|base: usize|
        Ok::<Seq<DeviceId>, CdiGpuSelectionError>(selected) == Ok::<
            _,
            CdiGpuSelectionError,
        >(rotation(family, base as int, count as nat));
    let n = family.len() as int;
    let start = base as int % n;
    assert forall|i: int| 0 <= i < selected.len() implies ids.contains(#[trigger] selected[i]) by {
        let p = (start + i) % n;
        assert(selected[i] == family[p]);
    }
    assert forall|i: int, j: int|
        0 <= i < selected.len() && 0 <= j < selected.len() && i != j implies selected[i]
        != selected[j] by {
        lemma_wrapped_position(start, i, n);
        lemma_wrapped_position(start, j, n);
        assert(selected[i] == family[(start + i) % n]);
        assert(selected[j] == family[(start + j) % n]);
    }
}

/// Where position `start + i` lands when wrapped around a cycle of length `n`.
proof fn lemma_wrapped_position(start: int, i: int, n: int)
    requires
        0 <= start < n,
        0 <= i < n,
    ensures
        (start + i) % n == (if start + i < n {
            start + i
        } else {
            start + i - n
        }),
{
    if start + i < n {
        vstd::arithmetic::div_mod::lemma_small_mod((start + i) as nat, n as nat);
    } else {
        vstd::arithmetic::div_mod::lemma_mod_add_multiples_vanish(start + i - n, n);
        vstd::arithmetic::div_mod::lemma_small_mod((start + i - n) as nat, n as nat);
    }
}

/// Advancing the cursor by the number of devices selected continues the
/// cycle: selecting `c1` devices and then `c2` more from the advanced cursor
/// gives the same devices as selecting `c1 + c2` at once.
pub proof fn law_rotation_continues(family: Seq<DeviceId>, base: int, c1: nat, c2: nat)
    requires
        family.len() > 0,
    ensures
        rotation(family, base, c1) + rotation(family, base + c1, c2) == rotation(
            family,
            base,
            c1 + c2,
        ),
{
    let n = family.len() as int;
    let whole = rotation(family, base, c1 + c2);
    let joined = rotation(family, base, c1) + rotation(family, base + c1, c2);
    assert forall|i: int| 0 <= i < c1 + c2 implies #[trigger] joined[i] == whole[i] by {
        if i >= c1 {
            let j = i - c1;
            vstd::arithmetic::div_mod::lemma_add_mod_noop_right(j, base + c1, n);
            vstd::arithmetic::div_mod::lemma_add_mod_noop_right(i, base, n);
            assert(((base + c1) % n + j) % n == (base + c1 + j) % n);
            assert((base % n + i) % n == (base + i) % n);
            assert(joined[i] == family[((base + c1) % n + j) % n]);
            assert(whole[i] == family[(base % n + i) % n]);
        }
    }
    assert(joined =~= whole);
}

/// The selection repeats once the cursor has gone around the whole family.
pub proof fn law_rotation_period(family: Seq<DeviceId>, base: int, count: nat)
    requires
        family.len() > 0,
    ensures
        rotation(family, base + family.len(), count) == rotation(family, base, count),
{
    let n = family.len() as int;
    vstd::arithmetic::div_mod::lemma_mod_add_multiples_vanish(base, n);
    assert(rotation(family, base + n, count) =~= rotation(family, base, count));
}

/// A request without explicit device IDs takes the driver-selected devices
/// exactly when they number what `cdi_gpu_default_device_count` asks for, and
/// fails as it fails.
pub proof fn law_resolved_ids_agree_with_default_count(
    gpu: &DriverGpuResourceRequirement,
    selected: Seq<String>,
)
    requires
        gpu.device_ids@.len() == 0,
        selected.len() <= usize::MAX,
    ensures
        resolved_device_ids(Some(gpu), Some(selected)) == Ok::<_, CdiGpuSelectionError>(
            Some(selected),
        ) <==> default_device_count(Some(gpu)) == Ok::<_, CdiGpuSelectionError>(
            Some(selected.len() as usize),
        ),
        default_device_count(Some(gpu)) matches Err(e) ==> resolved_device_ids(
            Some(gpu),
            Some(selected),
        ) == Err::<Option<Seq<String>>, _>(e),
{
}

/// A request that names its devices needs no driver-selected device, whatever
/// count it also gives.
pub proof fn law_explicit_ids_need_no_default_devices(gpu: &DriverGpuResourceRequirement)
    requires
        gpu.device_ids@.len() > 0,
    ensures
        default_device_count(Some(gpu)) == Ok::<Option<usize>, CdiGpuSelectionError>(None),
{
}

/// A request that names its devices resolves to exactly those devices,
/// whatever count it gives and whatever devices the driver selected.
pub proof fn law_explicit_ids_pass_through(
    gpu: &DriverGpuResourceRequirement,
    selected: Option<Seq<String>>,
)
    requires
        gpu.device_ids@.len() > 0,
    ensures
        resolved_device_ids(Some(gpu), selected) == Ok::<_, CdiGpuSelectionError>(
            Some(gpu.device_ids@),
        ),
{
}

/// No request resolves to no devices and needs no driver-selected device.
pub proof fn law_absent_request_needs_nothing(selected: Option<Seq<String>>)
    ensures
        default_device_count(None) == Ok::<Option<usize>, CdiGpuSelectionError>(None),
        resolved_device_ids(None, selected) == Ok::<Option<Seq<String>>, CdiGpuSelectionError>(
            None,
        ),
{
}

/// A request without explicit devices needs as many driver-selected devices as
/// its count says, one when it gives none, and never zero.
pub proof fn law_default_count_is_the_requested_count(gpu: &DriverGpuResourceRequirement)
    requires
        gpu.device_ids@.len() == 0,
    ensures
        gpu.count is None ==> default_device_count(Some(gpu)) == Ok::<_, CdiGpuSelectionError>(
            Some(1usize),
        ),
        gpu.count is Some && gpu.count->0 > 0 ==> default_device_count(Some(gpu)) == Ok::<
            _,
            CdiGpuSelectionError,
        >(Some(gpu.count->0 as usize)),
        gpu.count == Some(0u32) ==> default_device_count(Some(gpu)) == Err::<Option<usize>, _>(
            CdiGpuSelectionError::InvalidCount,
        ),
{
}

/// A request without explicit devices resolves, when it resolves, to the
/// driver-selected devices themselves.
pub proof fn law_default_resolution_is_the_selection(
    gpu: &DriverGpuResourceRequirement,
    selected: Option<Seq<String>>,
)
    requires
        gpu.device_ids@.len() == 0,
    ensures
        resolved_device_ids(Some(gpu), selected) matches Ok(Some(v)) ==> selected == Some(v),
        resolved_device_ids(Some(gpu), selected) matches Ok(r) ==> r is Some,
{
}

} // verus!
