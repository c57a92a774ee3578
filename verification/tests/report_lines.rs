use zerovisor::firmware::acpi::{dmar_line, ivrs_line, mcfg_line, DmarDetail, DmarItem, IvrsEntry, McfgAllocation};
use zerovisor::iommu::context::{plan_line, state_issue_line, PlanEntry, StateIssue};
use zerovisor::iommu::state::{add_mapping, create_domain, destroy_domain, domain_exists, list_mappings, new_state, remove_mapping};
use zerovisor::iommu::{class_filter_line, endpoint_line, find_line, id_filter};
use zerovisor::obs::metrics::Metrics;

fn text(b: Vec<u8>) -> String {
    String::from_utf8(b).unwrap()
}

#[test]
fn dmar_lines_name_each_structure() {
    let drhd = DmarItem::Struct { typ: 0, len: 24, detail: DmarDetail::Drhd { seg: 1, reg_base: 0xFED9_0000 } };
    assert_eq!(text(dmar_line(drhd)), "DMAR: struct type=0 len=24 seg=1 reg=0xFED90000\r\n");
    let rmrr = DmarItem::Struct { typ: 1, len: 32, detail: DmarDetail::Rmrr { seg: 0, base: 0x1000, limit: 0x1FFF } };
    assert_eq!(text(dmar_line(rmrr)), "DMAR: struct type=1 len=32 seg=0 range=0x1000-0x1FFF\r\n");
    let atsr = DmarItem::Struct { typ: 2, len: 8, detail: DmarDetail::Atsr { seg: 3, flags: 1 } };
    assert_eq!(text(dmar_line(atsr)), "DMAR: struct type=2 len=8 seg=3 flags=0x1\r\n");
    let other = DmarItem::Struct { typ: 5, len: 12, detail: DmarDetail::Other };
    assert_eq!(text(dmar_line(other)), "DMAR: struct type=5 len=12\r\n");
    let scope = DmarItem::Scope { scope_type: 1, scope_len: 8, start_bus: 0 };
    assert_eq!(text(dmar_line(scope)), "DMAR:   scope type=1 len=8 bus=0\r\n");
}

#[test]
fn ivrs_and_mcfg_lines() {
    assert_eq!(text(ivrs_line(IvrsEntry { entry_type: 0x10, len: 40 })), "IVRS: entry type=16 len=40\r\n");
    let a = McfgAllocation { base_address: 0xE000_0000, pci_segment: 0, start_bus: 0, end_bus: 255 };
    assert_eq!(text(mcfg_line(a)), "PCIe ECAM: seg=0 bus=0-255 base=0xE0000000\r\n");
}

#[test]
fn pci_lines_and_filters() {
    assert_eq!(text(endpoint_line(0, 0, 3, 0, 0x8086, 0x100E, 2, 0)),
        "IOMMU: dev seg=0 bus=0 dev=3 fn=0 vid=0x8086 did=0x100E class=2/0\r\n");
    assert_eq!(text(find_line(0, 1, 2, 3, 0x1AF4, 0x1041)), "PCI: seg=0 b=1 d=2 f=3 vid=0x1AF4 did=0x1041\r\n");
    assert_eq!(text(class_filter_line(1, 6)), "filter: class=1/6\r\n");
    assert!(id_filter(None, None, 0x8086, 0x100E));
    assert!(id_filter(Some(0x8086), None, 0x8086, 0x100E));
    assert!(!id_filter(Some(0x1AF4), None, 0x8086, 0x100E));
    assert!(!id_filter(Some(0x8086), Some(0x1000), 0x8086, 0x100E));
}

#[test]
fn plan_and_verify_lines() {
    let e = PlanEntry { seg: 0, bus: 2, dev: 3, func: 1, root_index: 2, ctx_index: 25, domid: 7 };
    assert_eq!(text(plan_line(e)), "  seg=0 bus=2 dev=3 fn=1 => root[2], ctx[25], dom=7\r\n");
    assert_eq!(text(state_issue_line(StateIssue::RootMissing)), "verify: root entry missing or null ctx\r\n");
    let m = StateIssue::Mismatch { seg: 0, bus: 2, dev: 3, func: 1 };
    assert_eq!(text(state_issue_line(m)), "verify: mismatch seg=0 bus=2 dev=3 fn=1\r\n");
}

#[test]
fn created_domain_exists_until_destroyed() {
    let mut st = new_state();
    let mut m = Metrics::new();
    let a = create_domain(&mut st, &mut m).unwrap();
    let b = create_domain(&mut st, &mut m).unwrap();
    assert_ne!(a, b);
    assert!(domain_exists(&st, a) && domain_exists(&st, b));
    assert!(destroy_domain(&mut st, a));
    assert!(!domain_exists(&st, a));
    assert!(domain_exists(&st, b));
    let c = create_domain(&mut st, &mut m).unwrap();
    assert_ne!(c, a);
    assert_ne!(c, b);
}

#[test]
fn removing_an_added_mapping_restores_the_list() {
    let mut st = new_state();
    let mut m = Metrics::new();
    let d = create_domain(&mut st, &mut m).unwrap();
    assert!(add_mapping(&mut st, d, 0x1000, 0x8000, 0x1000, true, false, false, &mut m));
    let before: Vec<(u16, u64, u64, u64)> = list_mappings(&st).iter().map(|x| (x.domid, x.iova, x.pa, x.len)).collect();
    assert!(add_mapping(&mut st, d, 0x4000, 0x9000, 0x2000, true, true, false, &mut m));
    assert!(remove_mapping(&mut st, d, 0x4000, 0x2000, &mut m));
    let after: Vec<(u16, u64, u64, u64)> = list_mappings(&st).iter().map(|x| (x.domid, x.iova, x.pa, x.len)).collect();
    assert_eq!(before, after);
}
