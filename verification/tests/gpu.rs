use lib::{
    cdi_gpu_default_device_count, cdi_gpu_device_ids, CdiGpuInventory, CdiGpuRoundRobin,
    CdiGpuSelectionError, DriverGpuResourceRequirement, CDI_GPU_DEVICE_ALL,
};

fn gpu_request(device_ids: Vec<&str>, count: Option<u32>) -> DriverGpuResourceRequirement {
    DriverGpuResourceRequirement {
        device_ids: device_ids.into_iter().map(str::to_string).collect(),
        count,
    }
}

#[test]
fn cdi_gpu_device_ids_returns_none_when_absent() {
    assert_eq!(cdi_gpu_device_ids(None, None), Ok(None));
}

#[test]
fn cdi_gpu_device_ids_uses_selected_default_device() {
    let request = gpu_request(vec![], None);
    let selected = vec!["nvidia.com/gpu=0".to_string()];

    assert_eq!(
        cdi_gpu_device_ids(Some(&request), Some(&selected)),
        Ok(Some(vec!["nvidia.com/gpu=0".to_string()]))
    );
}

#[test]
fn cdi_gpu_device_ids_uses_selected_count_devices() {
    let request = gpu_request(vec![], Some(2));
    let selected = vec![
        "nvidia.com/gpu=0".to_string(),
        "nvidia.com/gpu=1".to_string(),
    ];

    assert_eq!(
        cdi_gpu_device_ids(Some(&request), Some(&selected)),
        Ok(Some(selected))
    );
}

#[test]
fn cdi_gpu_device_ids_rejects_missing_default_device() {
    let request = gpu_request(vec![], None);

    assert_eq!(
        cdi_gpu_device_ids(Some(&request), None),
        Err(CdiGpuSelectionError::MissingDefaultDevice)
    );
}

#[test]
fn cdi_gpu_device_ids_rejects_wrong_selected_device_count() {
    let request = gpu_request(vec![], Some(2));
    let selected = vec!["nvidia.com/gpu=0".to_string()];

    assert_eq!(
        cdi_gpu_device_ids(Some(&request), Some(&selected)),
        Err(CdiGpuSelectionError::MissingDefaultDevice)
    );
}

#[test]
fn cdi_gpu_device_ids_rejects_zero_count() {
    let request = gpu_request(vec![], Some(0));

    assert_eq!(
        cdi_gpu_device_ids(Some(&request), Some(&[])),
        Err(CdiGpuSelectionError::InvalidCount)
    );
}

#[test]
fn cdi_gpu_device_ids_passes_device_ids_through() {
    let request = gpu_request(vec!["nvidia.com/gpu=0", "nvidia.com/gpu=1"], None);

    assert_eq!(
        cdi_gpu_device_ids(Some(&request), None),
        Ok(Some(vec![
            "nvidia.com/gpu=0".to_string(),
            "nvidia.com/gpu=1".to_string()
        ]))
    );
}

#[test]
fn default_device_count_ignores_explicit_device_ids() {
    let request = gpu_request(vec!["nvidia.com/gpu=0"], Some(2));

    assert_eq!(cdi_gpu_default_device_count(Some(&request)), Ok(None));
}

#[test]
fn inventory_filters_and_deduplicates_nvidia_gpu_ids() {
    let inventory = CdiGpuInventory::new(&[
        "nvidia.com/gpu=1",
        "vendor.example/device=0",
        "nvidia.com/gpu=1",
        " nvidia.com/gpu=0 ",
    ]);

    assert_eq!(
        inventory.as_slice(),
        &vec![
            "nvidia.com/gpu=0".to_string(),
            "nvidia.com/gpu=1".to_string()
        ]
    );
}

#[test]
fn round_robin_prefers_indexed_family_and_sorts_numerically() {
    let inventory = CdiGpuInventory::new(&[
        "nvidia.com/gpu=10",
        "nvidia.com/gpu=UUID-b",
        "nvidia.com/gpu=2",
        "nvidia.com/gpu=all",
    ]);
    let selector = CdiGpuRoundRobin::new();

    assert_eq!(
        selector.next_default_device_id(&inventory),
        Ok("nvidia.com/gpu=2".to_string())
    );
    assert_eq!(
        selector.next_default_device_id(&inventory),
        Ok("nvidia.com/gpu=10".to_string())
    );
    assert_eq!(
        selector.next_default_device_id(&inventory),
        Ok("nvidia.com/gpu=2".to_string())
    );
}

#[test]
fn round_robin_uses_uuid_family_when_no_indexed_ids_exist() {
    let inventory = CdiGpuInventory::new(&["nvidia.com/gpu=UUID-b", "nvidia.com/gpu=UUID-a"]);
    let selector = CdiGpuRoundRobin::new();

    assert_eq!(
        selector.next_default_device_id(&inventory),
        Ok("nvidia.com/gpu=UUID-a".to_string())
    );
}

#[test]
fn round_robin_uses_all_only_inventory() {
    let inventory = CdiGpuInventory::new(&[CDI_GPU_DEVICE_ALL]);
    let selector = CdiGpuRoundRobin::new();

    assert_eq!(
        selector.next_default_device_id(&inventory),
        Ok(CDI_GPU_DEVICE_ALL.to_string())
    );
}

#[test]
fn round_robin_rejects_empty_inventory() {
    let inventory = CdiGpuInventory::new(&["vendor.example/device=0"]);
    let selector = CdiGpuRoundRobin::new();

    assert_eq!(
        selector.next_default_device_id(&inventory),
        Err(CdiGpuSelectionError::NoAvailableDevices)
    );
}

#[test]
fn peek_does_not_advance_round_robin_cursor() {
    let inventory = CdiGpuInventory::new(&["nvidia.com/gpu=0", "nvidia.com/gpu=1"]);
    let selector = CdiGpuRoundRobin::new();

    assert_eq!(
        selector.peek_default_device_id(&inventory),
        Ok("nvidia.com/gpu=0".to_string())
    );
    assert_eq!(
        selector.peek_default_device_id(&inventory),
        Ok("nvidia.com/gpu=0".to_string())
    );
    assert_eq!(
        selector.next_default_device_id(&inventory),
        Ok("nvidia.com/gpu=0".to_string())
    );
    assert_eq!(
        selector.next_default_device_id(&inventory),
        Ok("nvidia.com/gpu=1".to_string())
    );
}

#[test]
fn round_robin_selects_requested_count_and_advances_by_count() {
    let inventory =
        CdiGpuInventory::new(&["nvidia.com/gpu=0", "nvidia.com/gpu=1", "nvidia.com/gpu=2"]);
    let selector = CdiGpuRoundRobin::new();

    assert_eq!(
        selector.next_default_device_ids(&inventory, 2),
        Ok(vec![
            "nvidia.com/gpu=0".to_string(),
            "nvidia.com/gpu=1".to_string()
        ])
    );
    assert_eq!(
        selector.next_default_device_ids(&inventory, 2),
        Ok(vec![
            "nvidia.com/gpu=2".to_string(),
            "nvidia.com/gpu=0".to_string()
        ])
    );
}

#[test]
fn round_robin_rejects_count_above_inventory_size() {
    let inventory = CdiGpuInventory::new(&["nvidia.com/gpu=0"]);
    let selector = CdiGpuRoundRobin::new();

    assert_eq!(
        selector.peek_default_device_ids(&inventory, 2),
        Err(CdiGpuSelectionError::InsufficientAvailableDevices {
            requested: 2,
            available: 1
        })
    );
}
