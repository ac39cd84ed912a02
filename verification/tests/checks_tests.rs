use lvq::checks::{
    calculate_capacity, calculate_required, verify, verify_done, verify_possible, verify_provision,
    verify_safety, verify_uniqueness,
};
use lvq::state::SystemState;
use lvq::types::{Call, Draft, DraftStatus, Filesystem, PercentTarget, SizeUnit, ValidPercentage};
use proptest::arbitrary::any;
use proptest::collection::btree_set;
use proptest::sample::subsequence;
use proptest::strategy::{BoxedStrategy, Just, Strategy, Union};
use proptest::test_runner::{Config, TestRunner};
use std::collections::HashSet;

fn runner() -> TestRunner {
    TestRunner::new(Config { cases: 1000, ..Config::default() })
}

fn create_draft(calls: Vec<Call>) -> Draft {
    Draft {
        draft: calls,
        status: DraftStatus::Pending,
        auto_confirm: false,
        draft_type: "provision".to_string(),
        warnings: vec![],
    }
}

fn build_state(calls: &[Call]) -> SystemState {
    let mut state = SystemState::default();
    for call in calls {
        match call {
            Call::PvCreate(p) => state.pvs.insert(p.clone()),
            Call::VgCreate { name, .. } => state.vgs.insert(name.clone()),
            Call::LvCreate { vg, name, .. } => state.lvs.insert(vg.clone(), name.clone()),
            Call::MkSwap(p) => state.swaps.insert(p.clone()),
            Call::Mkfs { device, .. } => state.filesystems.insert(device.clone()),
            Call::Mkdir(p) => state.paths_exist.insert(p.clone()),
            _ => {}
        }
    }
    state
}

fn requirement_scenario_strategy() -> BoxedStrategy<(Draft, u128, u128, u128)> {
    let total_usable = 1000u128;
    let pe_bytes = 4_194_304u128;
    let unit = Union::new(vec![
        (1..200u64).prop_map(SizeUnit::Extents).boxed(),
        (1..20u8)
            .prop_map(|p| SizeUnit::Percentage(ValidPercentage::new(p).unwrap(), PercentTarget::Vg))
            .boxed(),
        (1..50u8)
            .prop_map(|p| SizeUnit::Percentage(ValidPercentage::new(p).unwrap(), PercentTarget::Free))
            .boxed(),
        (1..40_000_000u64).prop_map(SizeUnit::Bytes).boxed(),
    ]);
    proptest::collection::vec(unit, 1..10)
        .prop_map(move |units| {
            let mut draft_calls = Vec::new();
            let mut expected_total = 0u128;
            for (i, unit) in units.into_iter().enumerate() {
                let required = match &unit {
                    SizeUnit::Extents(e) => *e as u128,
                    SizeUnit::Percentage(pct, target) => {
                        let p = pct.get() as u128;
                        match target {
                            PercentTarget::Vg | PercentTarget::Pvs => (total_usable * p) / 100,
                            PercentTarget::Free => {
                                let free = total_usable.saturating_sub(expected_total);
                                (free * p) / 100
                            }
                        }
                    }
                    _ => {
                        let b = unit.to_bytes().unwrap_or(0);
                        (b + pe_bytes - 1) / pe_bytes
                    }
                };
                expected_total += required;
                draft_calls.push(Call::LvCreate {
                    vg: "test_vg".to_string(),
                    name: format!("lv_{}", i),
                    size: unit,
                });
            }
            (create_draft(draft_calls), total_usable, pe_bytes, expected_total)
        })
        .boxed()
}

fn capacity_scenario_strategy() -> BoxedStrategy<(Draft, SystemState, u128, u128)> {
    let pe_size_strat = Union::new(vec![
        Just(SizeUnit::Megabytes(1)),
        Just(SizeUnit::Megabytes(4)),
        Just(SizeUnit::Megabytes(16)),
        Just(SizeUnit::Megabytes(32)),
        Just(SizeUnit::Megabytes(128)),
    ]);
    (pe_size_strat, btree_set(0..100u32, 1..10))
        .prop_flat_map(|(pe_unit, ids)| {
            let pe_bytes = pe_unit.to_bytes().unwrap();
            let sizes = proptest::collection::vec(2_000_000u64..1_000_000_000_000u64, ids.len());
            (Just(pe_unit), Just(ids), sizes, Just(pe_bytes))
        })
        .prop_map(|(pe_unit, ids, sizes, pe_bytes)| {
            let mut state = SystemState::default();
            let mut pvs = Vec::new();
            let mut total_expected_extents: u128 = 0;
            let overhead: u128 = 1048576;
            for (id, size_bytes) in ids.into_iter().zip(sizes.into_iter()) {
                let path = format!("/dev/vd{}", id);
                state.paths_exist.insert(path.clone());
                state.block_device_sizes.insert(path.clone(), size_bytes);
                pvs.push(path.clone());
                let usable = (size_bytes as u128).saturating_sub(overhead);
                total_expected_extents += usable / pe_bytes;
            }
            let draft = create_draft(vec![Call::VgCreate { name: "test_vg".to_string(), pvs, pe_size: pe_unit }]);
            (draft, state, total_expected_extents, pe_bytes)
        })
        .boxed()
}

#[test]
fn test_verify_done_invariants() {
    let pool: Vec<u32> = (0..100).collect();
    let strategy = subsequence(pool, 2..20).prop_flat_map(|ids| {
        let n = ids.len();
        (Just(ids), 0..3usize, 1..n)
    });
    runner()
        .run(&strategy, |(ids, world, n)| {
            let mut calls = Vec::new();
            for id in ids {
                calls.push(match id % 3 {
                    0 => Call::PvCreate(format!("/dev/vd{}", id)),
                    1 => Call::VgCreate {
                        name: format!("vg{}", id),
                        pvs: vec![format!("/dev/vd{}", id)],
                        pe_size: SizeUnit::Megabytes(4),
                    },
                    _ => Call::LvCreate {
                        vg: format!("vg{}", id),
                        name: format!("lv{}", id),
                        size: SizeUnit::Extents(100),
                    },
                });
            }
            let (state, expected_status) = match world {
                0 => (SystemState::default(), DraftStatus::Clean),
                1 => (build_state(&calls), DraftStatus::Done),
                _ => (build_state(&calls[0..n]), DraftStatus::Dirty),
            };
            let mut draft = create_draft(calls);
            let result = verify_done(&mut draft, &state);
            assert_eq!(draft.status, expected_status);
            if expected_status == DraftStatus::Dirty {
                assert!(result.is_err());
            } else {
                assert!(result.is_ok());
            }
            Ok(())
        })
        .unwrap();
}

#[test]
fn test_verify_safety_logic() {
    let strategy = proptest::collection::vec((0..100u32, (any::<bool>(), any::<bool>(), any::<bool>())), 1..5);
    runner()
        .run(&strategy, |scenarios| {
            let mut draft_calls = Vec::new();
            let mut state = SystemState::default();
            let mut should_fail = false;
            let mut expected_warnings = 0;
            let mut seen_ids = HashSet::new();
            for (id, (is_full, has_fs, in_fstab)) in scenarios {
                if !seen_ids.insert(id) {
                    continue;
                }
                let path = format!("/dev/vd{}", id);
                draft_calls.push(Call::PvCreate(path.clone()));
                if is_full {
                    state.is_full_disk.insert(path.clone());
                    expected_warnings += 1;
                }
                if has_fs {
                    state.filesystems.insert(path.clone());
                    if in_fstab {
                        state.fstab_device_refs.insert(path.clone());
                        should_fail = true;
                    } else {
                        expected_warnings += 1;
                    }
                }
            }
            let mut draft = create_draft(draft_calls);
            draft.status = DraftStatus::Clean;
            let result = verify_safety(&mut draft, &state);
            if should_fail {
                assert!(result.is_err());
                assert_eq!(draft.status, DraftStatus::Dirty);
                assert!(result.unwrap_err().to_lowercase().contains("fstab"));
            } else {
                assert!(result.is_ok());
                assert_eq!(draft.status, DraftStatus::Clean);
                let unique_warnings: HashSet<_> = draft.warnings.iter().collect();
                assert_eq!(unique_warnings.len(), expected_warnings);
            }
            Ok(())
        })
        .unwrap();
}

#[test]
fn test_calculate_capacity_math_integrity() {
    runner()
        .run(&capacity_scenario_strategy(), |(mut draft, state, expected_extents, expected_pe_bytes)| {
            match calculate_capacity(&mut draft, &state) {
                Ok((actual_extents, actual_pe_bytes)) => {
                    assert_eq!(actual_extents, expected_extents);
                    assert_eq!(actual_pe_bytes, expected_pe_bytes);
                    assert_ne!(draft.status, DraftStatus::Invalid);
                }
                Err(e) => panic!("Expected Ok capacity, got error: {}", e),
            }
            Ok(())
        })
        .unwrap();
}

#[test]
fn test_calculate_capacity_hardware_failure() {
    runner()
        .run(&capacity_scenario_strategy(), |(mut draft, mut state, _, _)| {
            if let Some(Call::VgCreate { pvs, .. }) = draft.draft.first() {
                if let Some(pv_to_remove) = pvs.first() {
                    state.paths_exist.remove(pv_to_remove);
                }
            }
            let result = calculate_capacity(&mut draft, &state);
            assert!(result.is_err(), "Should have failed due to missing PV");
            let err_msg = result.unwrap_err().to_lowercase();
            assert!(err_msg.contains("hardware") || err_msg.contains("path"));
            assert_eq!(draft.status, DraftStatus::Invalid);
            Ok(())
        })
        .unwrap();
}

#[test]
fn test_calculate_required_sequential_logic() {
    runner()
        .run(&requirement_scenario_strategy(), |(draft, total_usable, pe_bytes, expected_total)| {
            match calculate_required(&draft, total_usable, pe_bytes) {
                Ok(actual_total) => assert_eq!(actual_total, expected_total, "Math mismatch! Usable: {}, PE: {}", total_usable, pe_bytes),
                Err(e) => panic!("Expected Ok requirements, got error: {}", e),
            }
            Ok(())
        })
        .unwrap();
}

#[test]
fn test_verify_uniqueness_happy_path() {
    runner()
        .run(&btree_set(0..100u32, 1..20), |ids| {
            let mut draft_calls = Vec::new();
            for id in ids {
                if id % 2 == 0 {
                    draft_calls.push(Call::PvCreate(format!("/dev/vd{}", id)));
                } else {
                    draft_calls.push(Call::LvCreate {
                        vg: "vg0".to_string(),
                        name: format!("lv{}", id),
                        size: SizeUnit::Extents(10),
                    });
                }
            }
            assert!(verify_uniqueness(&create_draft(draft_calls)).is_ok());
            Ok(())
        })
        .unwrap();
}

#[test]
fn test_verify_uniqueness_sabotage() {
    runner()
        .run(&btree_set(0..100u32, 2..20), |ids| {
            let mut draft_calls = Vec::new();
            for id in ids {
                draft_calls.push(Call::PvCreate(format!("/dev/vd{}", id)));
            }
            let duplicate = draft_calls[0].clone();
            draft_calls.push(duplicate);
            let result = verify_uniqueness(&create_draft(draft_calls));
            assert!(result.is_err(), "Should have detected duplicate PV");
            assert!(result.unwrap_err().to_lowercase().contains("duplicate"));
            Ok(())
        })
        .unwrap();
}

#[test]
fn test_verify_possible_status_pipeline() {
    runner()
        .run(&capacity_scenario_strategy(), |(draft, state, expected_extents, _)| {
            {
                let mut test_draft = draft.clone();
                test_draft.status = DraftStatus::Clean;
                let result = verify_possible(&mut test_draft, &state);
                assert!(result.is_ok(), "Expected Ok for {} usable, got {:?}", expected_extents, result);
                assert_eq!(test_draft.status, DraftStatus::Ready);
            }
            {
                let mut test_draft = draft.clone();
                test_draft.draft.push(Call::LvCreate {
                    vg: "test_vg".to_string(),
                    name: "overprovisioned_lv".to_string(),
                    size: SizeUnit::Extents((expected_extents as u64).saturating_add(100)),
                });
                let result = verify_possible(&mut test_draft, &state);
                assert!(result.is_err());
                assert_eq!(test_draft.status, DraftStatus::Invalid);
            }
            {
                let mut test_draft = draft.clone();
                if let Some(first_call) = test_draft.draft.first().cloned() {
                    test_draft.draft.push(first_call);
                }
                let result = verify_possible(&mut test_draft, &state);
                assert!(result.is_err());
                assert_eq!(test_draft.status, DraftStatus::Invalid);
            }
            Ok(())
        })
        .unwrap();
}

#[test]
fn test_zero_denominator_logic() {
    let mut draft = Draft {
        auto_confirm: false,
        draft_type: "provision".to_string(),
        draft: vec![
            Call::Mkfs { device: "/dev/sdb1".to_string(), fs: Filesystem::Ext4 },
            Call::Mkdir("/mnt/data".to_string()),
        ],
        status: DraftStatus::Pending,
        warnings: vec![],
    };
    let mut state = SystemState::default();
    state.filesystems.insert("/dev/sdb1".to_string());
    state.paths_exist.insert("/mnt/data".to_string());
    let res = verify_done(&mut draft, &state);
    assert_eq!(draft.status, DraftStatus::Done);
    assert!(res.is_ok());
}

// Concrete cases.

fn small_plan() -> Vec<Call> {
    vec![
        Call::PvCreate("/dev/sdb".to_string()),
        Call::VgCreate { name: "data".to_string(), pvs: vec!["/dev/sdb".to_string()], pe_size: SizeUnit::Megabytes(4) },
        Call::LvCreate { vg: "data".to_string(), name: "web".to_string(), size: SizeUnit::Extents(100) },
    ]
}

fn hardware(size: u64) -> SystemState {
    let mut state = SystemState::default();
    state.paths_exist.insert("/dev/sdb".to_string());
    state.block_device_sizes.insert("/dev/sdb".to_string(), size);
    state
}

#[test]
fn verify_provision_makes_a_fitting_plan_ready() {
    let d = verify_provision(create_draft(small_plan()), &hardware(1_073_741_824)).unwrap();
    assert_eq!(d.status, DraftStatus::Ready);
}

#[test]
fn verify_provision_refuses_when_space_is_short() {
    let e = verify_provision(create_draft(small_plan()), &hardware(200 * 1048576)).unwrap_err();
    assert_eq!(e, "Insufficient disk space. Required 100, available 49.");
}

#[test]
fn verify_provision_sees_done_work() {
    let mut state = hardware(1_073_741_824);
    state.pvs.insert("/dev/sdb".to_string());
    state.vgs.insert("data".to_string());
    state.lvs.insert("data".to_string(), "web".to_string());
    let d = verify_provision(create_draft(small_plan()), &state).unwrap();
    assert_eq!(d.status, DraftStatus::Done);
}

#[test]
fn verify_provision_refuses_half_done_work() {
    let mut state = hardware(1_073_741_824);
    state.pvs.insert("/dev/sdb".to_string());
    let e = verify_provision(create_draft(small_plan()), &state).unwrap_err();
    assert_eq!(e, "Draft is in a dirty/partial state.");
}

#[test]
fn verify_refuses_unknown_draft_types() {
    let mut d = create_draft(small_plan());
    d.draft_type = "shrink".to_string();
    let e = verify(d, &hardware(1_073_741_824)).unwrap_err();
    assert_eq!(e, "Architectural Error: No verification ruleset exists for draft type 'shrink'");
}

#[test]
fn verify_possible_requires_a_clean_draft() {
    let mut d = create_draft(small_plan());
    let e = verify_possible(&mut d, &hardware(1_073_741_824)).unwrap_err();
    assert_eq!(e, "Cannot run capability check on a non-clean draft.");
    assert_eq!(d.status, DraftStatus::Invalid);
}

#[test]
fn capacity_error_messages() {
    let mut d = create_draft(small_plan());
    let e = calculate_capacity(&mut d, &SystemState::default()).unwrap_err();
    assert_eq!(e, "Hardware failure: Path \"/dev/sdb\" does not exist.");
    let mut state = SystemState::default();
    state.paths_exist.insert("/dev/sdb".to_string());
    let mut d = create_draft(small_plan());
    assert_eq!(calculate_capacity(&mut d, &state).unwrap_err(), "Missing size for \"/dev/sdb\"");
    assert_eq!(d.status, DraftStatus::Pending);
    let mut d = create_draft(small_plan());
    assert_eq!(calculate_capacity(&mut d, &hardware(1048576)).unwrap_err(), "Device \"/dev/sdb\" too small.");
    assert_eq!(d.status, DraftStatus::Invalid);
}

#[test]
fn capacity_counts_whole_extents() {
    let mut d = create_draft(small_plan());
    let (usable, pe) = calculate_capacity(&mut d, &hardware(9 * 1048576 + 5)).unwrap();
    assert_eq!(pe, 4_194_304);
    assert_eq!(usable, 2);
}

#[test]
fn required_rounds_bytes_up_to_extents() {
    let d = create_draft(vec![
        Call::LvCreate { vg: "v".to_string(), name: "a".to_string(), size: SizeUnit::Bytes(1) },
        Call::LvCreate {
            vg: "v".to_string(),
            name: "b".to_string(),
            size: SizeUnit::Percentage(ValidPercentage::new(50).unwrap(), PercentTarget::Free),
        },
    ]);
    assert_eq!(calculate_required(&d, 11, 4), Ok(6));
}

#[test]
fn uniqueness_messages() {
    let d = create_draft(vec![
        Call::LvCreate { vg: "v".to_string(), name: "a".to_string(), size: SizeUnit::Extents(1) },
        Call::LvCreate { vg: "v".to_string(), name: "a".to_string(), size: SizeUnit::Extents(2) },
    ]);
    assert_eq!(verify_uniqueness(&d).unwrap_err(), "Duplicate LV name 'a' in VG 'v'");
    let d = create_draft(vec![Call::PvCreate("/dev/x".to_string()), Call::PvCreate("/dev/x".to_string())]);
    assert_eq!(verify_uniqueness(&d).unwrap_err(), "Duplicate PV declaration: \"/dev/x\"");
    let d = create_draft(vec![
        Call::LvCreate { vg: "v".to_string(), name: "a".to_string(), size: SizeUnit::Extents(1) },
        Call::LvCreate { vg: "w".to_string(), name: "a".to_string(), size: SizeUnit::Extents(2) },
    ]);
    assert!(verify_uniqueness(&d).is_ok());
}

#[test]
fn safety_warning_texts() {
    let mut state = SystemState::default();
    state.is_full_disk.insert("/dev/sdb".to_string());
    state.filesystems.insert("/dev/sdb".to_string());
    let mut d = create_draft(vec![Call::PvCreate("/dev/sdb".to_string())]);
    assert!(verify_safety(&mut d, &state).is_ok());
    assert_eq!(
        d.warnings,
        vec![
            "Targeting full disk \"/dev/sdb\" (not a partition)...".to_string(),
            "Device \"/dev/sdb\" contains an existing signature...".to_string(),
        ]
    );
    state.fstab_device_refs.insert("/dev/sdb".to_string());
    let mut d = create_draft(vec![Call::PvCreate("/dev/sdb".to_string())]);
    assert_eq!(verify_safety(&mut d, &state).unwrap_err(), "CRITICAL: Device \"/dev/sdb\" referenced in fstab!");
    assert_eq!(d.status, DraftStatus::Dirty);
}
