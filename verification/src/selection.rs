//! Round-robin selection from a device family.

use vstd::prelude::*;

use crate::error::CdiGpuSelectionError;
use crate::inventory::{default_device_family, string_views};
use crate::sorted::DeviceId;

verus! {

/// `count` consecutive members of `family`, starting at position `base`
/// modulo its length and wrapping around its end.
pub open spec fn rotation<A>(family: Seq<A>, base: int, count: nat) -> Seq<A> {
    Seq::new(count, |i: int| family[(base % (family.len() as int) + i) % (family.len() as int)])
}

/// What default selection of `count` devices from the inventory `ids` gives,
/// for some cursor value `base`.
pub open spec fn is_default_selection(
    ids: Seq<DeviceId>,
    count: usize,
    selected: Result<Seq<DeviceId>, CdiGpuSelectionError>,
) -> bool {
    if count == 0 {
        selected == Err::<Seq<DeviceId>, _>(CdiGpuSelectionError::InvalidCount)
    } else {
        match default_device_family(ids) {
            Err(e) => selected == Err::<Seq<DeviceId>, _>(e),
            Ok(family) => if count > family.len() {
                selected == Err::<Seq<DeviceId>, _>(
                    CdiGpuSelectionError::InsufficientAvailableDevices {
                        requested: count,
                        available: family.len() as usize,
                    },
                )
            } else {
                exists|base: usize| selected == Ok::<_, CdiGpuSelectionError>(rotation(family, base as int, count as nat))
            },
        }
    }
}

/// Taking the text of each element commutes with `rotation`.
pub proof fn lemma_rotation_views(family: Seq<String>, base: int, count: nat)
    requires
        family.len() > 0,
    ensures
        string_views(rotation(family, base, count)) == rotation(string_views(family), base, count),
{
    let views = string_views(family);
    assert(views.len() == family.len());
    assert forall|i: int| 0 <= i < count implies #[trigger] string_views(
        rotation(family, base, count),
    )[i] == rotation(views, base, count)[i] by {
        let p = (base % (family.len() as int) + i) % (family.len() as int);
        assert(string_views(rotation(family, base, count))[i] == family[p]@);
    }
    assert(string_views(rotation(family, base, count)) =~= rotation(views, base, count));
}

/// The position in `0..n` that lies `offset` places after `start`, wrapping.
fn wrapped_position(start: usize, offset: usize, n: usize) -> (position: usize)
    requires
        start < n,
    ensures
        position == (start + offset) % (n as int),
        position < n,
{
    let r = offset % n;
    proof {
        vstd::arithmetic::div_mod::lemma_add_mod_noop(start as int, offset as int, n as int);
        vstd::arithmetic::div_mod::lemma_small_mod(start as nat, n as nat);
    }
    if r < n - start {
        proof {
            vstd::arithmetic::div_mod::lemma_small_mod((start + r) as nat, n as nat);
        }
        start + r
    } else {
        proof {
            vstd::arithmetic::div_mod::lemma_mod_add_multiples_vanish(
                (start + r - n) as int,
                n as int,
            );
            vstd::arithmetic::div_mod::lemma_small_mod((start + r - n) as nat, n as nat);
        }
        r - (n - start)
    }
}

/// Selects `count` devices round-robin from `devices`, starting at position
/// `base` modulo their number.
pub fn select_round_robin(devices: &[String], count: usize, base: usize) -> (selected: Vec<String>)
    requires
        devices@.len() > 0,
    ensures
        selected@ == rotation(devices@, base as int, count as nat),
{
    let n = devices.len();
    let start = base % n;
    let mut selected: Vec<String> = Vec::new();
    for offset in 0..count
        invariant
            n == devices@.len(),
            n > 0,
            start == base % n,
            selected@ == rotation(devices@, base as int, offset as nat),
    {
        let position = wrapped_position(start, offset, n);
        selected.push(devices[position].clone());
        assert(selected@ =~= rotation(devices@, base as int, (offset + 1) as nat));
    }
    selected
}

/// A successful default selection holds as many devices as were requested.
pub proof fn lemma_selection_len(
    ids: Seq<DeviceId>,
    count: usize,
    selected: Result<Seq<DeviceId>, CdiGpuSelectionError>,
)
    requires
        is_default_selection(ids, count, selected),
    ensures
        selected matches Ok(s) ==> s.len() == count,
{
    if let Ok(s) = selected {
        if let Ok(family) = default_device_family(ids) {
            let base = choose|base: usize|
                selected == Ok::<_, CdiGpuSelectionError>(rotation(family, base as int, count as nat));
        }
    }
}

} // verus!
