//! The normalized inventory of NVIDIA CDI GPU device IDs.

use vstd::prelude::*;

use crate::config::CDI_GPU_DEVICE_ALL;
use crate::error::CdiGpuSelectionError;
use crate::sorted::{
    DeviceId, is_strict_total_order, lemma_insert_strictly_sorted, lemma_lex_order_strict_total,
    lemma_sorted_enumeration_exists, lemma_strictly_sorted_unique, lex_order, strictly_sorted_by,
};
use crate::text::{
    Comparison, compare_str, lemma_lex_irreflexive, lemma_lex_total,
    lemma_lex_transitive, lemma_trim_idempotent, lex_lt, parse_u64, parse_u64_str,
    starts_with_str, strip_prefix, strip_prefix_str, trim, trim_str,
};

verus! {

/// Prefix of every NVIDIA GPU CDI device ID.
pub const CDI_NVIDIA_GPU_PREFIX: &'static str = "nvidia.com/gpu=";

/// Suffix of the CDI device ID that names all NVIDIA GPUs.
pub const CDI_NVIDIA_GPU_ALL_SUFFIX: &'static str = "all";

/// The characters of `CDI_NVIDIA_GPU_PREFIX`.
pub open spec fn gpu_prefix() -> Seq<char> {
    CDI_NVIDIA_GPU_PREFIX@
}

/// The text of each string, in order.
pub open spec fn string_views(s: Seq<String>) -> Seq<DeviceId> {
    s.map_values(|x: String| x@)
}

/// The text of each string slice, in order.
pub open spec fn str_views(s: Seq<&str>) -> Seq<Seq<char>> {
    s.map_values(|x: &str| x@)
}

/// What a runtime-reported ID contributes to the inventory: the ID trimmed of
/// white space, where it names an NVIDIA GPU; nothing otherwise.
pub open spec fn normalize_device_id(raw: Seq<char>) -> Option<DeviceId> {
    let t = trim(raw);
    if gpu_prefix().is_prefix_of(t) {
        Some(t)
    } else {
        None
    }
}

/// The IDs that the runtime-reported `raw` IDs contribute.
pub open spec fn accepted_ids(raw: Seq<Seq<char>>) -> Set<DeviceId> {
    Set::new(
        |x: DeviceId| exists|i: int| 0 <= i < raw.len() && normalize_device_id(raw[i]) == Some(x),
    )
}

/// `ids` holds exactly the IDs accepted from `raw`, each once, in ascending
/// `String` order.
pub open spec fn is_inventory_of(ids: Seq<DeviceId>, raw: Seq<Seq<char>>) -> bool {
    &&& strictly_sorted_by(ids, lex_order())
    &&& ids.to_set() == accepted_ids(raw)
}

/// An ID that the inventory may hold: an NVIDIA GPU ID without surrounding
/// white space.
pub open spec fn is_normalized_id(id: DeviceId) -> bool {
    gpu_prefix().is_prefix_of(id) && trim(id) == id
}

/// What every inventory satisfies: normalized IDs in strictly ascending order.
pub open spec fn is_normalized_inventory(ids: Seq<DeviceId>) -> bool {
    &&& strictly_sorted_by(ids, lex_order())
    &&& forall|i: int| 0 <= i < ids.len() ==> is_normalized_id(#[trigger] ids[i])
}

/// Normalized CDI GPU inventory used by local container drivers.
#[derive(Debug, PartialEq, Eq)]
pub struct CdiGpuInventory {
    device_ids: Vec<String>,
}

impl View for CdiGpuInventory {
    type V = Seq<DeviceId>;

    closed spec fn view(&self) -> Seq<DeviceId> {
        string_views(self.device_ids@)
    }
}

impl CdiGpuInventory {
    #[verifier::type_invariant]
    closed spec fn inventory_invariant(self) -> bool {
        is_normalized_inventory(string_views(self.device_ids@))
    }
}

/// A copy of each string, in order.
pub fn clone_strings(v: &[String]) -> (r: Vec<String>)
    ensures
        r@ == v@,
{
    let mut r: Vec<String> = Vec::new();
    for k in 0..v.len()
        invariant
            r@ == v@.take(k as int),
    {
        r.push(v[k].clone());
        assert(r@ =~= v@.take(k + 1));
    }
    assert(v@.take(v@.len() as int) =~= v@);
    r
}

impl Clone for CdiGpuInventory {
    fn clone(&self) -> (copy: Self)
        ensures
            copy@ == self@,
    {
        proof {
            use_type_invariant(self);
        }
        CdiGpuInventory { device_ids: clone_strings(&self.device_ids) }
    }
}

impl Default for CdiGpuInventory {
    fn default() -> (inventory: Self)
        ensures
            inventory@ == Seq::<DeviceId>::empty(),
    {
        let inventory = CdiGpuInventory { device_ids: Vec::new() };
        assert(inventory@ =~= Seq::<DeviceId>::empty());
        inventory
    }
}

/// Adds `id` to the strictly ascending `ids` unless it is already there.
fn insert_sorted_unique(ids: &mut Vec<String>, id: String)
    requires
        strictly_sorted_by(string_views(old(ids)@), lex_order()),
    ensures
        strictly_sorted_by(string_views(final(ids)@), lex_order()),
        string_views(final(ids)@).to_set() == string_views(old(ids)@).to_set().insert(id@),
{
    proof {
        lemma_lex_order_strict_total();
    }
    let ghost old_views = string_views(ids@);
    let n = ids.len();
    let mut p: usize = 0;
    while p < n && compare_str(ids[p].as_str(), id.as_str()) == Comparison::Less
        invariant
            n == ids@.len(),
            old_views == string_views(ids@),
            p <= n,
            forall|t: int| 0 <= t < p ==> lex_order()(#[trigger] old_views[t], id@),
        decreases n - p,
    {
        p = p + 1;
    }
    if p < n && compare_str(ids[p].as_str(), id.as_str()) == Comparison::Equal {
        assert(old_views.to_set().insert(id@) =~= old_views.to_set()) by {
            assert(old_views[p as int] == id@);
        }
        return ;
    }
    proof {
        if p < n {
            assert(old_views[p as int] != id@);
            assert(!lex_order()(old_views[p as int], id@));
            assert(lex_order()(id@, old_views[p as int]));
        }
        lemma_insert_strictly_sorted(old_views, p as int, id@, lex_order());
    }
    let ghost id_view = id@;
    ids.insert(p, id);
    assert(string_views(ids@) =~= old_views.insert(p as int, id_view));
}

/// The IDs accepted from a list are those accepted from all but its last
/// entry, plus what the last entry contributes.
proof fn lemma_accepted_ids_step(raw: Seq<Seq<char>>)
    requires
        raw.len() > 0,
    ensures
        accepted_ids(raw) == (match normalize_device_id(raw.last()) {
            Some(x) => accepted_ids(raw.drop_last()).insert(x),
            None => accepted_ids(raw.drop_last()),
        }),
{
    let init = raw.drop_last();
    let expected = match normalize_device_id(raw.last()) {
        Some(x) => accepted_ids(init).insert(x),
        None => accepted_ids(init),
    };
    assert forall|y: DeviceId| accepted_ids(raw).contains(y) implies expected.contains(y) by {
        let i = choose|i: int| 0 <= i < raw.len() && normalize_device_id(raw[i]) == Some(y);
        if i < raw.len() - 1 {
            assert(init[i] == raw[i]);
            assert(accepted_ids(init).contains(y));
        }
    }
    assert forall|y: DeviceId| expected.contains(y) implies accepted_ids(raw).contains(y) by {
        if normalize_device_id(raw.last()) == Some(y) {
            assert(normalize_device_id(raw[raw.len() - 1]) == Some(y));
        } else {
            let i = choose|i: int| 0 <= i < init.len() && normalize_device_id(init[i]) == Some(y);
            assert(raw[i] == init[i]);
        }
    }
    assert(accepted_ids(raw) =~= expected);
}

impl CdiGpuInventory {
    /// Build a normalized inventory from runtime-reported CDI device IDs.
    ///
    /// Non-NVIDIA GPU IDs are ignored. Duplicate IDs are removed. For default
    /// selection, indexed IDs and UUID-style IDs are treated as separate naming
    /// families because they may refer to the same devices.
    pub fn new(device_ids: &[&str]) -> (inventory: Self)
        ensures
            is_inventory_of(inventory@, str_views(device_ids@)),
    {
        let ghost raw = str_views(device_ids@);
        let mut ids: Vec<String> = Vec::new();
        let n = device_ids.len();
        assert(string_views(ids@) =~= Seq::<DeviceId>::empty());
        assert(accepted_ids(raw.take(0)) =~= Set::<DeviceId>::empty());
        for k in 0..n
            invariant
                n == device_ids@.len(),
                raw == str_views(device_ids@),
                is_normalized_inventory(string_views(ids@)),
                string_views(ids@).to_set() == accepted_ids(raw.take(k as int)),
        {
            let ghost before = string_views(ids@);
            let trimmed = trim_str(device_ids[k]);
            let accepted = starts_with_str(trimmed, CDI_NVIDIA_GPU_PREFIX);
            assert(raw[k as int] == device_ids@[k as int]@);
            assert(raw.take(k + 1).drop_last() =~= raw.take(k as int));
            if accepted {
                let ghost x = trimmed@;
                insert_sorted_unique(&mut ids, trimmed.to_owned());
                proof {
                    lemma_trim_idempotent(raw[k as int]);
                    lemma_accepted_ids_step(raw.take(k + 1));
                    let after = string_views(ids@);
                    assert forall|i: int| 0 <= i < after.len() implies is_normalized_id(
                        #[trigger] after[i],
                    ) by {
                        assert(after.to_set().contains(after[i]));
                        if after[i] != x {
                            let j = choose|j: int| 0 <= j < before.len() && before[j] == after[i];
                        }
                    }
                }
            } else {
                proof {
                    lemma_accepted_ids_step(raw.take(k + 1));
                }
            }
        }
        assert(raw.take(n as int) =~= raw);
        CdiGpuInventory { device_ids: ids }
    }

    /// The device IDs, in ascending `String` order.
    pub fn as_slice(&self) -> (ids: &[String])
        ensures
            string_views(ids@) == self@,
            is_normalized_inventory(self@),
    {
        proof {
            use_type_invariant(self);
        }
        self.device_ids.as_slice()
    }

    /// Whether the inventory holds no device ID.
    pub fn is_empty(&self) -> (empty: bool)
        ensures
            empty == (self@.len() == 0),
    {
        self.device_ids.is_empty()
    }
}

/// The part of an NVIDIA GPU ID after `CDI_NVIDIA_GPU_PREFIX`.
pub open spec fn device_suffix(id: DeviceId) -> Option<Seq<char>> {
    strip_prefix(id, gpu_prefix())
}

/// The GPU index that an indexed ID such as `nvidia.com/gpu=2` names.
pub open spec fn device_index(id: DeviceId) -> Option<u64> {
    match device_suffix(id) {
        Some(suffix) => parse_u64(suffix),
        None => None,
    }
}

/// The ID names a GPU by index.
pub open spec fn is_indexed_id(id: DeviceId) -> bool {
    device_index(id) is Some
}

/// The ID names a GPU by some other name than `all` (a UUID, most often).
pub open spec fn is_uuid_style_id(id: DeviceId) -> bool {
    device_suffix(id) matches Some(suffix) && suffix != CDI_NVIDIA_GPU_ALL_SUFFIX@
}

/// `is_indexed_id` as a function value.
pub open spec fn indexed_pred() -> spec_fn(DeviceId) -> bool {
    |id: DeviceId| is_indexed_id(id)
}

/// `is_uuid_style_id` as a function value.
pub open spec fn uuid_style_pred() -> spec_fn(DeviceId) -> bool {
    |id: DeviceId| is_uuid_style_id(id)
}

/// The index by which an indexed ID is ordered.
pub open spec fn index_key(id: DeviceId) -> int {
    match device_index(id) {
        Some(i) => i as int,
        None => 0,
    }
}

/// Order of indexed IDs: by GPU index, then by `String` order.
pub open spec fn index_lt(a: DeviceId, b: DeviceId) -> bool {
    index_key(a) < index_key(b) || (index_key(a) == index_key(b) && lex_lt(a, b))
}

/// `index_lt` as a function value.
pub open spec fn index_order() -> spec_fn(DeviceId, DeviceId) -> bool {
    |a: DeviceId, b: DeviceId| index_lt(a, b)
}

/// `index_lt` is a strict total order.
pub proof fn lemma_index_order_strict_total()
    ensures
        is_strict_total_order(index_order()),
{
    assert forall|a: DeviceId| !#[trigger] index_order()(a, a) by {
        lemma_lex_irreflexive(a);
    }
    assert forall|a: DeviceId, b: DeviceId, c: DeviceId|
        #[trigger] index_order()(a, b) && #[trigger] index_order()(b, c) implies index_order()(
        a,
        c,
    ) by {
        if index_key(a) == index_key(b) && index_key(b) == index_key(c) {
            lemma_lex_transitive(a, b, c);
        }
    }
    assert forall|a: DeviceId, b: DeviceId| a != b implies #[trigger] index_order()(a, b)
        || #[trigger] index_order()(b, a) by {
        lemma_lex_total(a, b);
    }
}

/// The elements of `ids`, each once, strictly ordered by `lt`.
pub open spec fn sorted_by(
    ids: Seq<DeviceId>,
    lt: spec_fn(DeviceId, DeviceId) -> bool,
) -> Seq<DeviceId> {
    choose|f: Seq<DeviceId>| strictly_sorted_by(f, lt) && f.to_set() == ids.to_set()
}

/// A sequence strictly sorted by a strict total order is the `sorted_by` of
/// any sequence with the same elements.
proof fn lemma_is_sorted_by(f: Seq<DeviceId>, ids: Seq<DeviceId>, lt: spec_fn(DeviceId, DeviceId) -> bool)
    requires
        is_strict_total_order(lt),
        strictly_sorted_by(f, lt),
        f.to_set() == ids.to_set(),
    ensures
        sorted_by(ids, lt) == f,
{
    let g = sorted_by(ids, lt);
    assert(strictly_sorted_by(g, lt) && g.to_set() == ids.to_set());
    lemma_strictly_sorted_unique(f, g, lt);
}

/// `sorted_by` gives a strictly sorted sequence of the same elements.
pub proof fn lemma_sorted_by_ensures(ids: Seq<DeviceId>, lt: spec_fn(DeviceId, DeviceId) -> bool)
    requires
        is_strict_total_order(lt),
    ensures
        strictly_sorted_by(sorted_by(ids, lt), lt),
        sorted_by(ids, lt).to_set() == ids.to_set(),
{
    lemma_sorted_enumeration_exists(ids, lt);
}

/// The IDs that default selection rotates through, as `default_device_family`
/// computes them from the inventory `ids`: indexed IDs ordered by index when
/// there are any; else the other IDs but `all` in `String` order; else the
/// all-GPUs ID if the inventory holds it.
pub open spec fn default_device_family(ids: Seq<DeviceId>) -> Result<
    Seq<DeviceId>,
    CdiGpuSelectionError,
> {
    let indexed = ids.filter(indexed_pred());
    let uuid_style = ids.filter(uuid_style_pred());
    if indexed.len() > 0 {
        Ok(sorted_by(indexed, index_order()))
    } else if uuid_style.len() > 0 {
        Ok(sorted_by(uuid_style, lex_order()))
    } else if ids.contains(CDI_GPU_DEVICE_ALL@) {
        Ok(seq![CDI_GPU_DEVICE_ALL@])
    } else {
        Err(CdiGpuSelectionError::NoAvailableDevices)
    }
}

/// A result with each string replaced by its text.
pub open spec fn result_views(r: Result<Vec<String>, CdiGpuSelectionError>) -> Result<
    Seq<DeviceId>,
    CdiGpuSelectionError,
> {
    match r {
        Ok(v) => Ok(string_views(v@)),
        Err(e) => Err(e),
    }
}

/// The part of `id` after the NVIDIA GPU prefix, if it has that prefix.
fn cdi_nvidia_gpu_suffix(id: &str) -> (suffix: Option<&str>)
    ensures
        suffix matches Some(s) ==> device_suffix(id@) == Some(s@),
        suffix is None ==> device_suffix(id@) is None,
{
    strip_prefix_str(id, CDI_NVIDIA_GPU_PREFIX)
}

/// Filtering all of a sequence but its last element, then that element.
proof fn lemma_filter_take_step(s: Seq<DeviceId>, k: int, pred: spec_fn(DeviceId) -> bool)
    requires
        0 <= k < s.len(),
    ensures
        s.take(k + 1).filter(pred) == (if pred(s[k]) {
            s.take(k).filter(pred).push(s[k])
        } else {
            s.take(k).filter(pred)
        }),
{
    assert(s.take(k + 1).drop_last() =~= s.take(k));
    reveal_with_fuel(Seq::filter, 1);
}

/// A sequence is empty exactly when its set of elements is.
proof fn lemma_empty_iff_no_elements(s: Seq<DeviceId>)
    ensures
        s.len() == 0 <==> s.to_set() == Set::<DeviceId>::empty(),
{
    if s.len() > 0 {
        assert(s.to_set().contains(s[0]));
    } else {
        assert(s.to_set() =~= Set::<DeviceId>::empty());
    }
}

/// Whether `a`, whose GPU index is `ka`, comes before `b`, whose GPU index is
/// `kb`, by `index_lt`.
fn index_before(ka: u64, a: &String, kb: u64, b: &String) -> (before: bool)
    requires
        ka as int == index_key(a@),
        kb as int == index_key(b@),
    ensures
        before == index_lt(a@, b@),
{
    ka < kb || (ka == kb && compare_str(a.as_str(), b.as_str()) == Comparison::Less)
}

/// Adds `id`, whose GPU index is `key`, to the IDs `ids` strictly ordered by
/// `index_lt`, unless it is already there; `keys` holds the index of each.
fn insert_by_index(keys: &mut Vec<u64>, ids: &mut Vec<String>, key: u64, id: String)
    requires
        old(keys)@.len() == old(ids)@.len(),
        forall|t: int| 0 <= t < old(keys)@.len() ==> old(keys)@[t] as int == index_key(
            #[trigger] string_views(old(ids)@)[t],
        ),
        strictly_sorted_by(string_views(old(ids)@), index_order()),
        key as int == index_key(id@),
    ensures
        final(keys)@.len() == final(ids)@.len(),
        forall|t: int| 0 <= t < final(keys)@.len() ==> final(keys)@[t] as int == index_key(
            #[trigger] string_views(final(ids)@)[t],
        ),
        strictly_sorted_by(string_views(final(ids)@), index_order()),
        string_views(final(ids)@).to_set() == string_views(old(ids)@).to_set().insert(id@),
{
    proof {
        lemma_index_order_strict_total();
    }
    let ghost old_views = string_views(ids@);
    let n = ids.len();
    let mut p: usize = 0;
    assert forall|t: int| 0 <= t < n implies keys@[t] as int == index_key(#[trigger] ids@[t]@) by {
        assert(old_views[t] == ids@[t]@);
    }
    while p < n && index_before(keys[p], &ids[p], key, &id)
        invariant
            n == ids@.len(),
            n == keys@.len(),
            old_views == string_views(ids@),
            forall|t: int| 0 <= t < n ==> keys@[t] as int == index_key(#[trigger] old_views[t]),
            forall|t: int| 0 <= t < n ==> keys@[t] as int == index_key(#[trigger] ids@[t]@),
            key as int == index_key(id@),
            p <= n,
            forall|t: int| 0 <= t < p ==> index_order()(#[trigger] old_views[t], id@),
        decreases n - p,
    {
        p = p + 1;
    }
    if p < n && keys[p] == key && compare_str(ids[p].as_str(), id.as_str()) == Comparison::Equal {
        assert(old_views.to_set().insert(id@) =~= old_views.to_set()) by {
            assert(old_views[p as int] == id@);
        }
        return ;
    }
    proof {
        if p < n {
            assert(keys@[p as int] as int == index_key(old_views[p as int]));
            assert(old_views[p as int] != id@);
            assert(!index_order()(old_views[p as int], id@));
            assert(index_order()(id@, old_views[p as int]));
        }
        lemma_insert_strictly_sorted(old_views, p as int, id@, index_order());
    }
    let ghost id_view = id@;
    let ghost old_keys = keys@;
    ids.insert(p, id);
    keys.insert(p, key);
    assert(string_views(ids@) =~= old_views.insert(p as int, id_view));
    assert forall|t: int| 0 <= t < keys@.len() implies keys@[t] as int == index_key(
        #[trigger] string_views(ids@)[t],
    ) by {
        if t < p {
            assert(keys@[t] == old_keys[t]);
        } else if t > p {
            assert(keys@[t] == old_keys[t - 1]);
        }
    }
}

impl CdiGpuInventory {
    /// The IDs that default selection rotates through; see
    /// `default_device_family`.
    pub(crate) fn default_device_family(&self) -> (family: Result<Vec<String>, CdiGpuSelectionError>)
        ensures
            result_views(family) == default_device_family(self@),
    {
        proof {
            use_type_invariant(self);
            lemma_index_order_strict_total();
            lemma_lex_order_strict_total();
        }
        let ghost ids = self@;
        let ghost is_indexed = indexed_pred();
        let ghost is_uuid_style = uuid_style_pred();
        let n = self.device_ids.len();

        let mut keys: Vec<u64> = Vec::new();
        let mut indexed: Vec<String> = Vec::new();
        assert(string_views(indexed@) =~= Seq::<DeviceId>::empty());
        assert(ids.take(0).filter(is_indexed) =~= Seq::<DeviceId>::empty()) by {
            reveal_with_fuel(Seq::filter, 1);
        }
        for k in 0..n
            invariant
                n == ids.len(),
                ids == self@,
                is_indexed == indexed_pred(),
                keys@.len() == indexed@.len(),
                forall|t: int| 0 <= t < keys@.len() ==> keys@[t] as int == index_key(
                    #[trigger] string_views(indexed@)[t],
                ),
                strictly_sorted_by(string_views(indexed@), index_order()),
                string_views(indexed@).to_set() == ids.take(k as int).filter(is_indexed).to_set(),
        {
            proof {
                lemma_filter_take_step(ids, k as int, is_indexed);
            }
            let id = &self.device_ids[k];
            assert(id@ == ids[k as int]);
            let ghost before = ids.take(k as int).filter(is_indexed);
            match cdi_nvidia_gpu_suffix(id.as_str()) {
                Some(suffix) => match parse_u64_str(suffix) {
                    Some(index) => {
                        assert(is_indexed(ids[k as int]));
                        insert_by_index(&mut keys, &mut indexed, index, id.clone());
                        proof {
                            before.lemma_push_to_set_commute(ids[k as int]);
                        }
                    },
                    None => {
                        assert(!is_indexed(ids[k as int]));
                    },
                },
                None => {
                    assert(!is_indexed(ids[k as int]));
                },
            }
        }
        assert(ids.take(n as int) =~= ids);
        proof {
            lemma_empty_iff_no_elements(string_views(indexed@));
            lemma_empty_iff_no_elements(ids.filter(is_indexed));
        }
        if indexed.len() > 0 {
            proof {
                lemma_is_sorted_by(string_views(indexed@), ids.filter(is_indexed), index_order());
            }
            return Ok(indexed);
        }
        let mut uuid_style: Vec<String> = Vec::new();
        assert(string_views(uuid_style@) =~= Seq::<DeviceId>::empty());
        assert(ids.take(0).filter(is_uuid_style) =~= Seq::<DeviceId>::empty()) by {
            reveal_with_fuel(Seq::filter, 1);
        }
        for k in 0..n
            invariant
                n == ids.len(),
                ids == self@,
                strictly_sorted_by(ids, lex_order()),
                is_uuid_style == uuid_style_pred(),
                string_views(uuid_style@) == ids.take(k as int).filter(is_uuid_style),
                strictly_sorted_by(string_views(uuid_style@), lex_order()),
                forall|t: int, j: int|
                    0 <= t < uuid_style@.len() && k <= j < n ==> lex_order()(
                        #[trigger] string_views(uuid_style@)[t],
                        #[trigger] ids[j],
                    ),
        {
            proof {
                lemma_filter_take_step(ids, k as int, is_uuid_style);
            }
            let id = &self.device_ids[k];
            assert(id@ == ids[k as int]);
            let ghost before = string_views(uuid_style@);
            match cdi_nvidia_gpu_suffix(id.as_str()) {
                Some(suffix) => {
                    if compare_str(suffix, CDI_NVIDIA_GPU_ALL_SUFFIX) != Comparison::Equal {
                        uuid_style.push(id.clone());
                        assert(string_views(uuid_style@) =~= before.push(ids[k as int]));
                        assert forall|t: int, j: int|
                            0 <= t < uuid_style@.len() && k + 1 <= j < n implies lex_order()(
                            #[trigger] string_views(uuid_style@)[t],
                            #[trigger] ids[j],
                        ) by {
                            if t == before.len() {
                                assert(lex_order()(ids[k as int], ids[j]));
                            } else {
                                assert(string_views(uuid_style@)[t] == before[t]);
                            }
                        }
                    }
                },
                None => {},
            }
        }
        assert(ids.take(n as int) =~= ids);
        if uuid_style.len() > 0 {
            proof {
                lemma_is_sorted_by(string_views(uuid_style@), ids.filter(is_uuid_style), lex_order());
            }
            return Ok(uuid_style);
        }
        let mut k: usize = 0;
        while k < n
            invariant
                n == ids.len(),
                ids == self@,
                k <= n,
                forall|t: int| 0 <= t < k ==> ids[t] != CDI_GPU_DEVICE_ALL@,
                ids.filter(indexed_pred()).len() == 0,
                ids.filter(uuid_style_pred()).len() == 0,
            decreases n - k,
        {
            if compare_str(self.device_ids[k].as_str(), CDI_GPU_DEVICE_ALL) == Comparison::Equal {
                let all = CDI_GPU_DEVICE_ALL.to_owned();
                let family = vec![all];
                assert(ids[k as int] == CDI_GPU_DEVICE_ALL@);
                assert(ids.contains(CDI_GPU_DEVICE_ALL@));
                assert(string_views(family@) =~= seq![CDI_GPU_DEVICE_ALL@]);
                return Ok(family);
            }
            k = k + 1;
        }
        Err(CdiGpuSelectionError::NoAvailableDevices)
    }
}

} // verus!
