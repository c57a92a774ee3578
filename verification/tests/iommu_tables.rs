use zerovisor::obs::Obs;
use zerovisor::obs::metrics::Metrics;
use zerovisor::iommu::context::{
    apply_assignments, clear_contexts, get_cr3_for_bdf, list_bus_contexts, plan_assignments, sample_targets,
    sync_contexts, translate_bdf_iova, validate_assignments, verify_mappings, verify_state, walk_bdf_iova, MapIssue,
    StateIssue, XlateOutcome,
};
use zerovisor::iommu::slpt::{
    apply_mappings, map_range_2m, map_range_4k, provision_domain, unmap_range, unmap_range_4k, TablePool,
};
use zerovisor::iommu::state::{add_mapping, assign_device, create_domain, new_state};
use zerovisor::iommu::vtd::{register_unit, walk_second_level, DeviceScope, DomainSlpt, VtdUnits};
use zerovisor::mm::pages::PhysPages;

const NX: u64 = 1 << 63;

fn pool(base: u64, pages: usize, used: u64) -> TablePool {
    TablePool { mem: PhysPages { base, words: vec![0u64; pages * 512] }, used }
}

#[test]
fn map_4k_then_walk_finds_each_page() {
    let mut p = pool(0x10_0000, 8, 1);
    map_range_4k(&mut p, 0x10_0000, 0x4000, 0x8000_0000, 0x2000, true, true, true);
    // PDPT, PD and PT were taken from the pool.
    assert_eq!(p.used, 4);
    assert_eq!(walk_second_level(&p.mem, 0x10_0000, 0x4000).0, Some(0x8000_0000));
    assert_eq!(walk_second_level(&p.mem, 0x10_0000, 0x5123).0, Some(0x8000_1123));
    assert_eq!(walk_second_level(&p.mem, 0x10_0000, 0x6000).0, None);
    let ents = walk_second_level(&p.mem, 0x10_0000, 0x4000).1;
    assert_eq!(ents[0], 0x10_1000 | 3);
    assert_eq!(ents[3], 0x8000_0000 | 3);
}

#[test]
fn non_executable_leaves_carry_bit_63_into_the_walk() {
    let mut p = pool(0x10_0000, 8, 1);
    map_range_4k(&mut p, 0x10_0000, 0x4000, 0x8000_0000, 0x1000, true, false, false);
    assert_eq!(walk_second_level(&p.mem, 0x10_0000, 0x4010).0, Some(NX | 0x8000_0010));
}

#[test]
fn map_with_no_root_or_no_length_changes_nothing() {
    let mut p = pool(0x10_0000, 4, 1);
    map_range_4k(&mut p, 0, 0x4000, 0x8000_0000, 0x1000, true, true, true);
    map_range_4k(&mut p, 0x10_0000, 0x4000, 0x8000_0000, 0, true, true, true);
    assert_eq!(p.used, 1);
    assert!(p.mem.words.iter().all(|&w| w == 0));
}

#[test]
fn pool_exhaustion_leaves_the_walk_empty() {
    // Only one free page: the PDPT fits, the PD does not.
    let mut p = pool(0x10_0000, 2, 1);
    map_range_4k(&mut p, 0x10_0000, 0x4000, 0x8000_0000, 0x1000, true, true, true);
    assert_eq!(p.used, 2);
    assert_eq!(walk_second_level(&p.mem, 0x10_0000, 0x4000).0, None);
}

#[test]
fn map_2m_then_walk_and_unmap_4k_keeps_large_pages() {
    let mut p = pool(0x10_0000, 8, 1);
    map_range_2m(&mut p, 0x10_0000, 0x20_0000, 0x4000_0000, 0x40_0000, true, true, true);
    assert_eq!(p.used, 3);
    assert_eq!(walk_second_level(&p.mem, 0x10_0000, 0x20_1234).0, Some(0x4000_1234));
    assert_eq!(walk_second_level(&p.mem, 0x10_0000, 0x5F_FFFF).0, Some(0x403F_FFFF));
    assert_eq!(walk_second_level(&p.mem, 0x10_0000, 0x60_0000).0, None);
    // A 4 KiB unmap leaves the 2 MiB leaf alone.
    unmap_range_4k(&mut p.mem, 0x10_0000, 0x20_0000, 0x1000);
    assert_eq!(walk_second_level(&p.mem, 0x10_0000, 0x20_0000).0, Some(0x4000_0000));
}

#[test]
fn unmap_4k_clears_only_its_pages() {
    let mut p = pool(0x10_0000, 8, 1);
    map_range_4k(&mut p, 0x10_0000, 0x4000, 0x8000_0000, 0x3000, true, true, true);
    unmap_range_4k(&mut p.mem, 0x10_0000, 0x5000, 0x1000);
    assert_eq!(walk_second_level(&p.mem, 0x10_0000, 0x4000).0, Some(0x8000_0000));
    assert_eq!(walk_second_level(&p.mem, 0x10_0000, 0x5000).0, None);
    assert_eq!(walk_second_level(&p.mem, 0x10_0000, 0x6000).0, Some(0x8000_2000));
}

#[test]
fn domains_get_identity_tables_and_their_mappings() {
    let mut st = new_state();
    let d = create_domain(&mut st, &mut Metrics::new()).unwrap();
    assert!(add_mapping(&mut st, d, 0x4000_0000, 0x20_0000, 0x20_0000, true, true, true, &mut Metrics::new()));
    assert!(add_mapping(&mut st, d, 0x4020_0000, 0x5000, 0x1000, true, true, true, &mut Metrics::new()));
    let mut ds = DomainSlpt::new();
    let mut p = pool(0x10_0000, 16, 0);
    apply_mappings(&st, &mut ds, &mut p, &mut Obs::new());
    let cr3 = ds.ptrs[d as usize & 0xF].unwrap();
    assert_eq!(cr3, 0x10_0000);
    // The bootstrap identity map of the first GiB.
    assert_eq!(walk_second_level(&p.mem, cr3, 0x1234_5678).0, Some(0x1234_5678));
    // The 2 MiB mapping, then the 4 KiB one in tables of its own.
    assert_eq!(walk_second_level(&p.mem, cr3, 0x4000_0010).0, Some(0x20_0010));
    assert_eq!(walk_second_level(&p.mem, cr3, 0x4020_0020).0, Some(0x5020));
    assert_eq!(verify_mappings(&st, &ds, &p.mem), Vec::<MapIssue>::new());
    unmap_range(&ds, &mut p, d, 0x4020_0000, 0x1000, &mut Obs::new());
    assert_eq!(walk_second_level(&p.mem, cr3, 0x4020_0020).0, None);
    assert_eq!(verify_mappings(&st, &ds, &p.mem), vec![MapIssue::Missing]);
}

#[test]
fn provisioning_needs_three_free_pages() {
    let mut ds = DomainSlpt::new();
    let mut p = pool(0x10_0000, 2, 0);
    assert_eq!(provision_domain(&mut ds, &mut p, 5), None);
    let mut p = pool(0x10_0000, 3, 0);
    assert_eq!(provision_domain(&mut ds, &mut p, 5), Some(0x10_0000));
    assert_eq!(p.used, 3);
    // Already provisioned: the same root, nothing taken.
    assert_eq!(provision_domain(&mut ds, &mut p, 21), Some(0x10_0000));
}

/// Root table at 0x100_0000 with bus 0 pointing at the context table at 0x100_1000.
fn context_tables() -> PhysPages {
    let mut words = vec![0u64; 2 * 512];
    words[0] = 0x100_1000 | 1;
    PhysPages { base: 0x100_0000, words }
}

#[test]
fn assignments_become_context_entries_that_verify() {
    let mut st = new_state();
    let d = create_domain(&mut st, &mut Metrics::new()).unwrap();
    assert!(assign_device(&mut st, 0, 0, 2, 0, d, &mut Metrics::new()));
    assert!(assign_device(&mut st, 0, 1, 3, 0, d, &mut Metrics::new()));
    let mut units = VtdUnits::new();
    register_unit(&mut units, 0, 0xFED9_0000, 0x100_0000);
    let scopes: Vec<DeviceScope> = Vec::new();
    let mut tables = context_tables();
    let mut ds = DomainSlpt::new();
    let mut p = pool(0x20_0000, 8, 0);
    assert_eq!(verify_state(&tables, &units, &scopes, &st).len(), 2);
    apply_assignments(&mut tables, &units, &scopes, &st, &mut ds, &mut p);
    // Bus 1 has no root entry: only it is reported.
    assert_eq!(verify_state(&tables, &units, &scopes, &st), vec![StateIssue::RootMissing]);
    // Context entry of 0:2.0 (index 16): present, second-level, domain id.
    assert_eq!(tables.words[512 + 32], 0x20_0000 | 1 | 4);
    assert_eq!(tables.words[512 + 33], 2 | ((d as u64) << 8));
    assert_eq!(get_cr3_for_bdf(&tables, &units, &scopes, 0, 0, 2, 0), Some(0x20_0000));
    assert_eq!(get_cr3_for_bdf(&tables, &units, &scopes, 0, 0, 3, 0), None);
    assert_eq!(translate_bdf_iova(&tables, &units, &scopes, &st, &ds, &p.mem, 0, 0, 2, 0, 0x3456),
        XlateOutcome::Device(Some(0x3456)));
    // Through the domain when the context table has nothing for the device.
    assert_eq!(translate_bdf_iova(&tables, &units, &scopes, &st, &ds, &p.mem, 0, 1, 3, 0, 0x3456),
        XlateOutcome::Domain(Some(0x3456)));
    assert_eq!(translate_bdf_iova(&tables, &units, &scopes, &st, &ds, &p.mem, 0, 1, 4, 0, 0x3456),
        XlateOutcome::NoTables);
    let w = walk_bdf_iova(&tables, &units, &scopes, &p.mem, 0, 0, 2, 0, 0x20_0000).unwrap();
    assert_eq!(w.0, Some(0x20_0000));
    assert!(walk_bdf_iova(&tables, &units, &scopes, &p.mem, 0, 0, 5, 0, 0).is_none());
    let listing = list_bus_contexts(&tables, &units, 0);
    assert_eq!(listing.len(), 1);
    assert_eq!(listing[0].devfns, vec![(2, 0)]);
    assert!(list_bus_contexts(&tables, &units, 1).is_empty());
}

#[test]
fn clearing_and_resyncing_contexts() {
    let mut st = new_state();
    let d = create_domain(&mut st, &mut Metrics::new()).unwrap();
    assert!(assign_device(&mut st, 0, 0, 2, 1, d, &mut Metrics::new()));
    let mut units = VtdUnits::new();
    register_unit(&mut units, 0, 0xFED9_0000, 0x100_0000);
    let scopes: Vec<DeviceScope> = Vec::new();
    let mut tables = context_tables();
    tables.words[512 + 2 * 40] = 0xdead_0001;
    clear_contexts(&mut tables, &units);
    assert!(tables.words[512..].iter().all(|&w| w == 0));
    assert_eq!(tables.words[0], 0x100_1000 | 1);
    let mut ds = DomainSlpt::new();
    let mut p = pool(0x20_0000, 8, 0);
    tables.words[512 + 2 * 40] = 0xdead_0001;
    sync_contexts(&mut tables, &units, &scopes, &st, &mut ds, &mut p);
    assert_eq!(tables.words[512 + 2 * 40], 0);
    assert_eq!(tables.words[512 + 2 * 17] & 1, 1);
    assert!(verify_state(&tables, &units, &scopes, &st).is_empty());
}

#[test]
fn plans_validation_and_samples() {
    let mut st = new_state();
    let d1 = create_domain(&mut st, &mut Metrics::new()).unwrap();
    let d2 = create_domain(&mut st, &mut Metrics::new()).unwrap();
    assert!(assign_device(&mut st, 0, 3, 4, 5, d1, &mut Metrics::new()));
    assert!(assign_device(&mut st, 0, 6, 7, 1, d2, &mut Metrics::new()));
    let all = plan_assignments(&st, None);
    assert_eq!(all.len(), 2);
    assert_eq!((all[0].root_index, all[0].ctx_index, all[0].domid), (3, 37, d1));
    let only = plan_assignments(&st, Some(d2));
    assert_eq!(only.len(), 1);
    assert_eq!((only[0].root_index, only[0].ctx_index), (6, 57));
    let scopes = vec![DeviceScope { seg: 0, reg_base: 0xFED9_0000, bus: 6, dev: 7, func: 1 }];
    assert_eq!(validate_assignments(&st, &scopes), vec![false, true]);
    let (targets, reps) = sample_targets(&st, d1, 0);
    assert_eq!(targets.len(), 1);
    assert_eq!(reps, 1);
    assert_eq!(sample_targets(&st, 9, 3).1, 3);
    assert!(sample_targets(&st, 9, 3).0.is_empty());
}

#[test]
fn a_range_across_table_boundaries_reads_back_page_by_page() {
    // Four pages on either side of the 1 GiB boundary: two PDs and two PTs.
    let mut p = pool(0x10_0000, 16, 1);
    map_range_4k(&mut p, 0x10_0000, 0x3FFF_C000, 0x9000_0000, 0x8000, true, true, true);
    assert_eq!(p.used, 6);
    for k in 0..8u64 {
        let iova = 0x3FFF_C000 + k * 0x1000;
        assert_eq!(walk_second_level(&p.mem, 0x10_0000, iova + 0x10).0, Some(0x9000_0000 + k * 0x1000 + 0x10));
    }
    assert_eq!(walk_second_level(&p.mem, 0x10_0000, 0x3FFF_B000).0, None);
    assert_eq!(walk_second_level(&p.mem, 0x10_0000, 0x4000_4000).0, None);
}

#[test]
fn a_2m_range_across_a_gib_boundary_reads_back_page_by_page() {
    let mut p = pool(0x10_0000, 8, 1);
    map_range_2m(&mut p, 0x10_0000, 0x3FC0_0000, 0x8000_0000, 0x80_0000, true, true, true);
    // A PDPT and two PDs.
    assert_eq!(p.used, 4);
    for k in 0..4u64 {
        let iova = 0x3FC0_0000 + k * 0x20_0000;
        assert_eq!(walk_second_level(&p.mem, 0x10_0000, iova + 0x1234).0, Some(0x8000_0000 + k * 0x20_0000 + 0x1234));
    }
    assert_eq!(walk_second_level(&p.mem, 0x10_0000, 0x4040_0000).0, None);
}
