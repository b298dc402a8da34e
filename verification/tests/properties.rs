use lib::inventory::CdiGpuInventory;
use lib::request::{cdi_gpu_default_device_count, cdi_gpu_device_ids, DriverGpuResourceRequirement};
use lib::round_robin::CdiGpuRoundRobin;
use lib::selection::select_round_robin;
use lib::text::{compare_str, parse_u64_str, starts_with_str, strip_prefix_str, trim_str, Comparison};
use lib::CdiGpuSelectionError;

fn strings(ids: &[&str]) -> Vec<String> {
    ids.iter().map(|s| s.to_string()).collect()
}

fn rebuild(inventory: &CdiGpuInventory) -> CdiGpuInventory {
    let ids: Vec<&str> = inventory.as_slice().iter().map(|s| s.as_str()).collect();
    CdiGpuInventory::new(&ids)
}

#[test]
fn error_messages_match_display_text() {
    assert_eq!(
        CdiGpuSelectionError::NoAvailableDevices.to_string(),
        "no NVIDIA CDI GPU devices were discovered"
    );
    assert_eq!(
        CdiGpuSelectionError::InvalidCount.to_string(),
        "GPU count must be greater than 0"
    );
    assert_eq!(
        CdiGpuSelectionError::InsufficientAvailableDevices {
            requested: 2,
            available: 1
        }
        .to_string(),
        "GPU count request exceeds discovered NVIDIA CDI GPU devices (2 > 1)"
    );
    assert_eq!(
        CdiGpuSelectionError::InsufficientAvailableDevices {
            requested: 1234567890,
            available: 0
        }
        .to_string(),
        "GPU count request exceeds discovered NVIDIA CDI GPU devices (1234567890 > 0)"
    );
    assert_eq!(
        CdiGpuSelectionError::MissingDefaultDevice.to_string(),
        "GPU request requires selected default CDI GPU device IDs"
    );
}

#[test]
fn trim_matches_std_on_unicode_white_space() {
    for s in [
        "",
        "   ",
        " \t\n\u{000B}\u{000C}\r x y \u{0085}",
        "\u{00A0}\u{1680}\u{2000}\u{200A}\u{2028}\u{2029}\u{202F}\u{205F}\u{3000}z\u{3000}",
        "\u{200B}kept\u{200B}",
        "\u{180E}kept",
        "plain",
    ] {
        assert_eq!(trim_str(s), s.trim());
    }
}

#[test]
fn inventory_trims_unicode_white_space() {
    let inventory = CdiGpuInventory::new(&[
        "\u{3000}nvidia.com/gpu=3\t",
        "\u{200B}nvidia.com/gpu=4",
        "NVIDIA.com/gpu=5",
    ]);
    assert_eq!(inventory.as_slice(), &strings(&["nvidia.com/gpu=3"])[..]);
    assert!(!inventory.is_empty());
    assert!(CdiGpuInventory::new(&[]).is_empty());
}

#[test]
fn parse_matches_std_u64_parse() {
    for s in [
        "0",
        "7",
        "+3",
        "01",
        "-1",
        "+",
        "",
        " 1",
        "1 ",
        "18446744073709551615",
        "18446744073709551616",
        "99999999999999999999x",
        "12a",
        "\u{0661}",
    ] {
        assert_eq!(parse_u64_str(s), s.parse::<u64>().ok(), "input {:?}", s);
    }
}

#[test]
fn string_helpers_match_std() {
    let words = ["", "a", "ab", "b", "nvidia.com/gpu=", "nvidia.com/gpu=10", "\u{e9}", "z"];
    for a in words {
        for b in words {
            let expected = match a.cmp(b) {
                std::cmp::Ordering::Less => Comparison::Less,
                std::cmp::Ordering::Equal => Comparison::Equal,
                std::cmp::Ordering::Greater => Comparison::Greater,
            };
            assert_eq!(compare_str(a, b), expected);
            assert_eq!(starts_with_str(a, b), a.starts_with(b));
            assert_eq!(strip_prefix_str(a, b), a.strip_prefix(b));
        }
    }
}

#[test]
fn indexed_family_orders_by_index_then_id() {
    let inventory = CdiGpuInventory::new(&[
        "nvidia.com/gpu=+3",
        "nvidia.com/gpu=1",
        "nvidia.com/gpu=01",
        "nvidia.com/gpu=GPU-0",
    ]);
    let selector = CdiGpuRoundRobin::new();
    assert_eq!(
        selector.peek_default_device_ids(&inventory, 3),
        Ok(strings(&["nvidia.com/gpu=01", "nvidia.com/gpu=1", "nvidia.com/gpu=+3"]))
    );
}

#[test]
fn overflowing_index_is_not_indexed() {
    let inventory = CdiGpuInventory::new(&[
        "nvidia.com/gpu=UUID",
        "nvidia.com/gpu=18446744073709551616",
        "nvidia.com/gpu=all",
    ]);
    let selector = CdiGpuRoundRobin::new();
    assert_eq!(
        selector.peek_default_device_ids(&inventory, 2),
        Ok(strings(&["nvidia.com/gpu=18446744073709551616", "nvidia.com/gpu=UUID"]))
    );
    assert_eq!(
        selector.peek_default_device_ids(&inventory, 3),
        Err(CdiGpuSelectionError::InsufficientAvailableDevices {
            requested: 3,
            available: 2
        })
    );
}

#[test]
fn all_device_is_only_used_alone() {
    let inventory = CdiGpuInventory::new(&["nvidia.com/gpu=all", "other.vendor/gpu=1"]);
    let selector = CdiGpuRoundRobin::new();
    assert_eq!(
        selector.next_default_device_ids(&inventory, 1),
        Ok(strings(&["nvidia.com/gpu=all"]))
    );
    assert_eq!(
        selector.next_default_device_ids(&inventory, 2),
        Err(CdiGpuSelectionError::InsufficientAvailableDevices {
            requested: 2,
            available: 1
        })
    );
}

#[test]
fn zero_count_selection_is_rejected() {
    let inventory = CdiGpuInventory::new(&["nvidia.com/gpu=0"]);
    let selector = CdiGpuRoundRobin::new();
    assert_eq!(
        selector.next_default_device_ids(&inventory, 0),
        Err(CdiGpuSelectionError::InvalidCount)
    );
    assert_eq!(
        selector.peek_default_device_ids(&CdiGpuInventory::new(&[]), 0),
        Err(CdiGpuSelectionError::InvalidCount)
    );
}

#[test]
fn inventory_ignores_order_and_duplicates() {
    let a = CdiGpuInventory::new(&["nvidia.com/gpu=2", "nvidia.com/gpu=1", "x/y=1"]);
    let b = CdiGpuInventory::new(&[" nvidia.com/gpu=1", "nvidia.com/gpu=2", "nvidia.com/gpu=1 "]);
    assert_eq!(a, b);
}

#[test]
fn inventory_rebuild_is_identity() {
    let inventory = CdiGpuInventory::new(&[" nvidia.com/gpu=b ", "nvidia.com/gpu=a", "q"]);
    assert_eq!(rebuild(&inventory), inventory);
    assert_eq!(inventory.clone(), inventory);
    assert_eq!(CdiGpuInventory::default(), CdiGpuInventory::new(&[]));
}

#[test]
fn default_selection_is_distinct_and_from_inventory() {
    let inventory = CdiGpuInventory::new(&[
        "nvidia.com/gpu=0",
        "nvidia.com/gpu=1",
        "nvidia.com/gpu=2",
        "nvidia.com/gpu=3",
    ]);
    let selector = CdiGpuRoundRobin::new();
    for _ in 0..5 {
        let selected = selector.next_default_device_ids(&inventory, 3).unwrap();
        assert_eq!(selected.len(), 3);
        for (i, a) in selected.iter().enumerate() {
            assert!(inventory.as_slice().contains(a));
            for b in &selected[i + 1..] {
                assert_ne!(a, b);
            }
        }
    }
}

#[test]
fn consecutive_selections_continue_the_cycle() {
    let inventory =
        CdiGpuInventory::new(&["nvidia.com/gpu=0", "nvidia.com/gpu=1", "nvidia.com/gpu=2"]);
    let split = CdiGpuRoundRobin::new();
    let mut joined = split.next_default_device_ids(&inventory, 2).unwrap();
    joined.extend(split.next_default_device_ids(&inventory, 2).unwrap());
    let whole = select_round_robin(inventory.as_slice(), 4, 0);
    assert_eq!(joined, whole);
}

#[test]
fn selection_repeats_after_a_full_cycle() {
    let devices = strings(&["a", "b", "c"]);
    assert_eq!(
        select_round_robin(&devices, 5, 7),
        strings(&["b", "c", "a", "b", "c"])
    );
    assert_eq!(
        select_round_robin(&devices, 5, 7 + 3),
        select_round_robin(&devices, 5, 7)
    );
    assert_eq!(
        select_round_robin(&devices, 2, usize::MAX),
        strings(&["a", "b"])
    );
    assert_eq!(select_round_robin(&devices, 0, 1), Vec::<String>::new());
}

#[test]
fn peek_then_next_agree_until_advanced() {
    let inventory = CdiGpuInventory::new(&["nvidia.com/gpu=0", "nvidia.com/gpu=1"]);
    let selector = CdiGpuRoundRobin::new();
    for _ in 0..4 {
        let peeked = selector.peek_default_device_ids(&inventory, 2);
        assert_eq!(selector.next_default_device_ids(&inventory, 1).map(|v| v[0].clone()),
            peeked.map(|v| v[0].clone()));
    }
}

#[test]
fn resolved_ids_agree_with_default_count() {
    let selected = strings(&["nvidia.com/gpu=0", "nvidia.com/gpu=1", "nvidia.com/gpu=2"]);
    for count in [None, Some(0), Some(1), Some(2), Some(3), Some(4)] {
        let request = DriverGpuResourceRequirement {
            device_ids: Vec::new(),
            count,
        };
        for n in 0..=3 {
            let chosen = &selected[..n];
            let resolved = cdi_gpu_device_ids(Some(&request), Some(chosen));
            match cdi_gpu_default_device_count(Some(&request)) {
                Ok(Some(expected)) => {
                    if expected == n {
                        assert_eq!(resolved, Ok(Some(chosen.to_vec())));
                    } else {
                        assert_eq!(resolved, Err(CdiGpuSelectionError::MissingDefaultDevice));
                    }
                }
                Err(e) => assert_eq!(resolved, Err(e)),
                Ok(None) => panic!("no explicit IDs were given"),
            }
        }
    }
    assert_eq!(cdi_gpu_default_device_count(None), Ok(None));
    let request = DriverGpuResourceRequirement {
        device_ids: Vec::new(),
        count: Some(u32::MAX),
    };
    assert_eq!(
        cdi_gpu_default_device_count(Some(&request)),
        Ok(Some(u32::MAX as usize))
    );
}
