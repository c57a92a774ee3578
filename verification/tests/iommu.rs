use zerovisor::obs::Obs;
use zerovisor::obs::metrics::Metrics;
use zerovisor::iommu::state::{
    add_mapping, assign_device, create_domain, destroy_domain, domain_exists, find_domain_for_bdf,
    has_assignments, list_assignments, list_domains, list_mappings, new_state, remove_mapping,
    remove_mappings_for_domain, unassign_device,
};
use zerovisor::iommu::vtd::{
    invalidate_all, invalidate_line, srtp_command, te_command, GCMD_SRTP, GCMD_TE,
    apply_and_refresh, apply_safe, context_entry, ensure_domain_slptptr, find_unit_for_bdf, get_domain_slptptr,
    get_unit_by_index, invalidate_bdf, invalidate_domain, register_unit, selftest, verify_context_entry,
    vtd_indices_from_bdf, walk_second_level, DeviceScope, DomainSlpt, SelfTestConfig, VtdStep, VtdUnit, VtdUnits,
};
use zerovisor::iommu::{cfg_load, cfg_save, ecam_fn_base, find_ecam_for_segment, SavedAssign};
use zerovisor::firmware::acpi::McfgAllocation;
use zerovisor::iommu::restore::restore_assignments;

#[test]
fn domains_get_increasing_ids_and_slots_run_out() {
    let mut st = new_state();
    assert_eq!(create_domain(&mut st, &mut Metrics::new()), Some(1));
    assert_eq!(create_domain(&mut st, &mut Metrics::new()), Some(2));
    for _ in 0..14 {
        assert!(create_domain(&mut st, &mut Metrics::new()).is_some());
    }
    assert_eq!(create_domain(&mut st, &mut Metrics::new()), None);
    assert_eq!(list_domains(&st).len(), 16);
    assert!(destroy_domain(&mut st, 2));
    assert!(!domain_exists(&st, 2));
    assert!(!destroy_domain(&mut st, 2));
}

#[test]
fn assignments_need_an_existing_domain() {
    let mut st = new_state();
    assert!(!assign_device(&mut st, 0, 0, 3, 0, 1, &mut Metrics::new()));
    let d = create_domain(&mut st, &mut Metrics::new()).unwrap();
    assert!(assign_device(&mut st, 0, 0, 3, 0, d, &mut Metrics::new()));
    assert!(has_assignments(&st));
    assert_eq!(find_domain_for_bdf(&st, 0, 0, 3, 0), Some(d));
    assert_eq!(find_domain_for_bdf(&st, 0, 0, 4, 0), None);
    assert!(unassign_device(&mut st, 0, 0, 3, 0, &mut Metrics::new()));
    assert!(!unassign_device(&mut st, 0, 0, 3, 0, &mut Metrics::new()));
    assert!(!has_assignments(&st));
}

#[test]
fn destroying_a_domain_releases_its_devices_and_mappings() {
    let mut st = new_state();
    let a = create_domain(&mut st, &mut Metrics::new()).unwrap();
    let b = create_domain(&mut st, &mut Metrics::new()).unwrap();
    assert!(assign_device(&mut st, 0, 1, 0, 0, a, &mut Metrics::new()));
    assert!(assign_device(&mut st, 0, 2, 0, 0, b, &mut Metrics::new()));
    assert!(add_mapping(&mut st, a, 0x1000, 0x8000, 0x1000, true, true, false, &mut Metrics::new()));
    assert!(add_mapping(&mut st, b, 0x2000, 0x9000, 0x1000, true, false, false, &mut Metrics::new()));
    assert!(destroy_domain(&mut st, a));
    let asg = list_assignments(&st);
    assert_eq!(asg.len(), 1);
    assert_eq!(asg[0].domid, b);
    let maps = list_mappings(&st);
    assert_eq!(maps.len(), 1);
    assert_eq!(maps[0].domid, b);
}

#[test]
fn mappings_are_added_removed_and_purged() {
    let mut st = new_state();
    let a = create_domain(&mut st, &mut Metrics::new()).unwrap();
    assert!(!add_mapping(&mut st, 9, 0, 0, 0x1000, true, false, false, &mut Metrics::new()));
    assert!(add_mapping(&mut st, a, 0x1000, 0x8000, 0x1000, true, true, false, &mut Metrics::new()));
    assert!(add_mapping(&mut st, a, 0x3000, 0x9000, 0x2000, true, true, true, &mut Metrics::new()));
    assert!(remove_mapping(&mut st, a, 0x1000, 0x1000, &mut Metrics::new()));
    assert!(!remove_mapping(&mut st, a, 0x1000, 0x1000, &mut Metrics::new()));
    assert_eq!(remove_mappings_for_domain(&mut st, a, &mut Metrics::new()), 1);
    assert!(list_mappings(&st).is_empty());
}

#[test]
fn ecam_address_of_a_function() {
    assert_eq!(ecam_fn_base(0xE000_0000, 0, 1, 2, 3), 0xE000_0000 + 0x10_0000 + 2 * 0x8000 + 3 * 0x1000);
    // Buses below the window's first bus fold onto it.
    assert_eq!(ecam_fn_base(0xE000_0000, 5, 2, 0, 0), 0xE000_0000);
    assert_eq!(ecam_fn_base(0xE000_0000, 5, 6, 0, 1), 0xE010_1000);
}

#[test]
fn last_matching_ecam_window_wins() {
    let allocs = vec![
        McfgAllocation { base_address: 0xA000_0000, pci_segment: 0, start_bus: 0, end_bus: 0xFF },
        McfgAllocation { base_address: 0xB000_0000, pci_segment: 1, start_bus: 0, end_bus: 0x7F },
        McfgAllocation { base_address: 0xC000_0000, pci_segment: 0, start_bus: 0x10, end_bus: 0x1F },
    ];
    assert_eq!(find_ecam_for_segment(&allocs, 0, 0x12), Some((0xC000_0000, 0x10)));
    assert_eq!(find_ecam_for_segment(&allocs, 0, 0x20), Some((0xA000_0000, 0)));
    assert_eq!(find_ecam_for_segment(&allocs, 1, 0x80), None);
}

#[test]
fn saved_assignments_read_back() {
    let mut st = new_state();
    let a = create_domain(&mut st, &mut Metrics::new()).unwrap();
    assert!(assign_device(&mut st, 0x0102, 3, 4, 5, a, &mut Metrics::new()));
    assert!(assign_device(&mut st, 0, 0x1f, 0, 2, a, &mut Metrics::new()));
    let rec = cfg_save(&st);
    assert_eq!(rec, vec![2, 0, 0x02, 0x01, 3, 4, 5, 0, 1, 0, 0, 0, 0x1f, 0, 2, 0, 1, 0]);
    let back = cfg_load(&rec).unwrap();
    assert_eq!(back, vec![
        SavedAssign { seg: 0x0102, bus: 3, dev: 4, func: 5, domid: 1 },
        SavedAssign { seg: 0, bus: 0x1f, dev: 0, func: 2, domid: 1 },
    ]);
}

#[test]
fn short_or_truncated_records() {
    assert_eq!(cfg_load(&[1]), None);
    assert_eq!(cfg_load(&[0, 0]), Some(vec![]));
    // A count of three with room for one entry.
    let rec = [3, 0, 1, 0, 2, 3, 4, 0, 5, 0, 9];
    assert_eq!(cfg_load(&rec), Some(vec![SavedAssign { seg: 1, bus: 2, dev: 3, func: 4, domid: 5 }]));
}

#[test]
fn units_and_device_scopes() {
    let mut units = VtdUnits::new();
    register_unit(&mut units, 0, 0xFED9_0000, 0x100_0000);
    register_unit(&mut units, 0, 0xFED9_1000, 0x200_0000);
    register_unit(&mut units, 1, 0xFED9_2000, 0x300_0000);
    assert_eq!(get_unit_by_index(&units, 1), Some(VtdUnit { seg: 0, reg_base: 0xFED9_1000, root_tbl: 0x200_0000 }));
    assert_eq!(get_unit_by_index(&units, 3), None);
    let scopes = vec![DeviceScope { seg: 0, reg_base: 0xFED9_1000, bus: 0, dev: 2, func: 0 }];
    assert_eq!(find_unit_for_bdf(&units, &scopes, 0, 0, 2, 0).unwrap().reg_base, 0xFED9_1000);
    assert_eq!(find_unit_for_bdf(&units, &scopes, 0, 0, 3, 0).unwrap().reg_base, 0xFED9_0000);
    assert_eq!(find_unit_for_bdf(&units, &scopes, 1, 0, 3, 0).unwrap().reg_base, 0xFED9_2000);
    assert_eq!(find_unit_for_bdf(&units, &scopes, 2, 0, 3, 0), None);
    assert_eq!(invalidate_bdf(&units, &scopes, 0, 0, 2, 0, &mut Obs::new()).unwrap().reg_base, 0xFED9_1000);
}

#[test]
fn domain_invalidation_targets_each_unit_once() {
    let mut units = VtdUnits::new();
    register_unit(&mut units, 0, 0xA000, 0);
    register_unit(&mut units, 0, 0xB000, 0);
    let scopes = vec![DeviceScope { seg: 0, reg_base: 0xB000, bus: 0, dev: 5, func: 0 }];
    let mut st = new_state();
    let d = create_domain(&mut st, &mut Metrics::new()).unwrap();
    let e = create_domain(&mut st, &mut Metrics::new()).unwrap();
    assert!(assign_device(&mut st, 0, 0, 1, 0, d, &mut Metrics::new()));
    assert!(assign_device(&mut st, 0, 0, 2, 0, d, &mut Metrics::new()));
    assert!(assign_device(&mut st, 0, 0, 5, 0, d, &mut Metrics::new()));
    assert!(assign_device(&mut st, 0, 0, 6, 0, e, &mut Metrics::new()));
    let t = invalidate_domain(&st, &units, &scopes, d, &mut Obs::new());
    assert_eq!(t.iter().map(|u| u.reg_base).collect::<Vec<_>>(), vec![0xA000, 0xB000]);
}

#[test]
fn context_entries_round_trip() {
    let (lo, hi) = context_entry(7, Some(0x1234_5000));
    assert_eq!(lo, 1 | (1 << 2) | 0x1234_0000);
    assert_eq!(hi, 2 | (7 << 8));
    assert!(verify_context_entry(lo, hi, 7));
    assert!(!verify_context_entry(lo, hi, 8));
    let (lo, hi) = context_entry(7, None);
    assert!(!verify_context_entry(lo, hi, 7));
    assert_eq!(vtd_indices_from_bdf(3, 0x1f, 7), (3, 0xff));
}

#[test]
fn domain_tables_translate_identity() {
    let mut ds = DomainSlpt::new();
    assert_eq!(get_domain_slptptr(&ds, 3), None);
    assert_eq!(ensure_domain_slptptr(&mut ds, 3, None).0, None);
    let (ptr, img) = ensure_domain_slptptr(&mut ds, 3, Some(0x40_0000));
    assert_eq!(ptr, Some(0x40_0000));
    let mem = img.unwrap();
    assert_eq!(get_domain_slptptr(&ds, 3), Some(0x40_0000));
    assert_eq!(get_domain_slptptr(&ds, 19), Some(0x40_0000));
    let (again, none) = ensure_domain_slptptr(&mut ds, 3, Some(0x80_0000));
    assert_eq!(again, Some(0x40_0000));
    assert!(none.is_none());
    for a in [0u64, 0x1234, 0x20_0000, 0x3FFF_FFFF] {
        assert_eq!(walk_second_level(&mem, 0x40_0000, a).0, Some(a));
    }
    assert_eq!(walk_second_level(&mem, 0x40_0000, 0x4000_0000).0, None);
    assert_eq!(walk_second_level(&mem, 0, 0x1000), (None, [0, 0, 0, 0]));
}

#[test]
fn maintenance_step_sequences() {
    assert_eq!(apply_and_refresh(), vec![VtdStep::ApplyAssignments, VtdStep::InvalidateAll]);
    assert_eq!(apply_safe(), vec![VtdStep::DisableTranslation, VtdStep::ApplyAssignments,
        VtdStep::ApplyMappings, VtdStep::EnableTranslation]);
}

#[test]
fn selftest_plan() {
    let cfg = SelfTestConfig::default();
    assert_eq!(cfg, SelfTestConfig { quick: false, do_apply: true, do_invalidate: true, test_domain: None,
        walk_samples: 2, xlate_samples: 2 });
    let mut st = new_state();
    assert_eq!(selftest(&st, cfg), vec![VtdStep::PlanAssignments, VtdStep::DisableTranslation,
        VtdStep::ApplyAssignments, VtdStep::ApplyMappings, VtdStep::EnableTranslation, VtdStep::VerifyState,
        VtdStep::VerifyMappings, VtdStep::InvalidateAll, VtdStep::NoAssignment, VtdStep::ReportStats,
        VtdStep::ReportSummary]);
    let d = create_domain(&mut st, &mut Metrics::new()).unwrap();
    assert!(assign_device(&mut st, 0, 1, 2, 3, d, &mut Metrics::new()));
    let quick = SelfTestConfig { quick: true, do_invalidate: false, ..cfg };
    assert_eq!(selftest(&st, quick), vec![VtdStep::PlanAssignments, VtdStep::ApplyAssignments,
        VtdStep::InvalidateAll, VtdStep::VerifyState, VtdStep::VerifyMappings, VtdStep::NoMappingForSample,
        VtdStep::ReportStats, VtdStep::ReportSummary]);
    assert!(add_mapping(&mut st, d, 0x5000, 0x9000, 0x1000, true, true, false, &mut Metrics::new()));
    let bare = SelfTestConfig { do_apply: false, do_invalidate: false, ..cfg };
    assert_eq!(selftest(&st, bare), vec![VtdStep::VerifyState, VtdStep::VerifyMappings,
        VtdStep::Translate { seg: 0, bus: 1, dev: 2, func: 3, iova: 0x5000, times: 2 },
        VtdStep::Walk { seg: 0, bus: 1, dev: 2, func: 3, iova: 0x5000, times: 2 },
        VtdStep::ReportStats, VtdStep::ReportSummary]);
    let other = SelfTestConfig { do_apply: false, do_invalidate: false, test_domain: Some(9), ..cfg };
    assert_eq!(selftest(&st, other)[2], VtdStep::NoAssignment);
}

#[test]
fn registry_changes_are_counted() {
    let mut st = new_state();
    let mut m = Metrics::new();
    let d = create_domain(&mut st, &mut m).unwrap();
    assert!(assign_device(&mut st, 0, 0, 1, 0, d, &mut m));
    assert!(!assign_device(&mut st, 0, 0, 1, 0, 99, &mut m));
    assert!(unassign_device(&mut st, 0, 0, 1, 0, &mut m));
    assert!(add_mapping(&mut st, d, 0x1000, 0x8000, 0x1000, true, true, false, &mut m));
    assert!(add_mapping(&mut st, d, 0x3000, 0x9000, 0x1000, true, true, false, &mut m));
    assert!(add_mapping(&mut st, d, 0x5000, 0xA000, 0x1000, true, true, false, &mut m));
    assert!(remove_mapping(&mut st, d, 0x1000, 0x1000, &mut m));
    assert_eq!(remove_mappings_for_domain(&mut st, d, &mut m), 2);
    assert_eq!(m.iommu_domain_created.value, 1);
    assert_eq!(m.iommu_assign_added.value, 1);
    assert_eq!(m.iommu_assign_removed.value, 1);
    assert_eq!(m.iommu_map_added.value, 3);
    assert_eq!(m.iommu_map_removed.value, 3);
    assert_eq!(m.vm_created.value, 0);
}

#[test]
fn invalidations_are_counted_and_traced() {
    let mut units = VtdUnits::new();
    register_unit(&mut units, 0, 0xA000, 0);
    let scopes: Vec<DeviceScope> = Vec::new();
    let st = new_state();
    let mut obs = Obs::new();
    let _ = invalidate_domain(&st, &units, &scopes, 4, &mut obs);
    let _ = invalidate_bdf(&units, &scopes, 0, 1, 2, 3, &mut obs);
    let us = invalidate_all(&units, &mut obs);
    assert_eq!(us.len(), 1);
    assert_eq!(us[0].reg_base, 0xA000);
    assert_eq!(obs.metrics.iommu_inv_domain.value, 1);
    assert_eq!(obs.metrics.iommu_inv_bdf.value, 1);
    assert_eq!(obs.metrics.iommu_inv_all.value, 1);
    let lines: Vec<Vec<u8>> = zerovisor::obs::trace::dump(&obs.trace);
    assert_eq!(lines, vec![
        b"trace: vtd_inval_dom id=4\r\n".to_vec(),
        b"trace: vtd_inval_bdf 0:1:2.3\r\n".to_vec(),
        b"trace: vtd_inval_all seg=0\r\n".to_vec(),
    ]);
}

#[test]
fn restore_gives_each_saved_domain_a_new_one() {
    let mut st = new_state();
    let mut m = Metrics::new();
    let saved = vec![
        SavedAssign { seg: 0, bus: 1, dev: 2, func: 3, domid: 5 },
        SavedAssign { seg: 0, bus: 1, dev: 2, func: 4, domid: 5 },
        SavedAssign { seg: 0, bus: 2, dev: 0, func: 0, domid: 9 },
    ];
    restore_assignments(&mut st, &saved, &mut m);
    assert_eq!(list_domains(&st), vec![1, 2]);
    let got: Vec<(u8, u8, u8, u16)> = list_assignments(&st).iter().map(|a| (a.bus, a.dev, a.func, a.domid)).collect();
    assert_eq!(got, vec![(1, 2, 3, 1), (1, 2, 4, 1), (2, 0, 0, 2)]);
    assert_eq!(m.iommu_domain_created.value, 2);
    assert_eq!(m.iommu_assign_added.value, 3);
}

#[test]
fn saved_assignments_come_back_after_a_restore() {
    let mut st = new_state();
    let mut m = Metrics::new();
    let a = create_domain(&mut st, &mut m).unwrap();
    let b = create_domain(&mut st, &mut m).unwrap();
    assert!(assign_device(&mut st, 0, 3, 0, 0, b, &mut m));
    assert!(assign_device(&mut st, 0, 4, 1, 2, a, &mut m));
    assert!(assign_device(&mut st, 0, 5, 0, 0, b, &mut m));
    let rec = cfg_save(&st);
    let back = cfg_load(&rec).unwrap();
    let mut fresh = new_state();
    restore_assignments(&mut fresh, &back, &mut Metrics::new());
    let got: Vec<(u8, u8, u8, u16)> = list_assignments(&fresh).iter().map(|x| (x.bus, x.dev, x.func, x.domid)).collect();
    // the first saved domain met (b) becomes 1, the next (a) becomes 2
    assert_eq!(got, vec![(3, 0, 0, 1), (4, 1, 2, 2), (5, 0, 0, 1)]);
}

#[test]
fn command_register_values_and_refresh_lines() {
    assert_eq!(srtp_command(0x8000_0000), 0xC000_0000);
    assert_eq!(srtp_command(0), GCMD_SRTP);
    assert_eq!(te_command(0x4000_0000, true), 0xC000_0000);
    assert_eq!(te_command(0xC000_0001, false), 0x4000_0001);
    assert_eq!(GCMD_TE, 0x8000_0000);
    assert_eq!(invalidate_line(0, true), b"VT-d: invalidate seg=0 result=OK\r\n".to_vec());
    assert_eq!(invalidate_line(2, false), b"VT-d: invalidate seg=2 result=TIMEOUT\r\n".to_vec());
}

#[test]
fn invalidate_all_lists_units_in_slot_order() {
    let mut units = VtdUnits::new();
    register_unit(&mut units, 0, 0xA000, 0x1000);
    register_unit(&mut units, 1, 0xB000, 0x2000);
    let mut obs = Obs::new();
    let us = invalidate_all(&units, &mut obs);
    let bases: Vec<u64> = us.iter().map(|u| u.reg_base).collect();
    assert_eq!(bases, vec![0xA000, 0xB000]);
    assert_eq!(obs.metrics.iommu_inv_all.value, 1);
}
