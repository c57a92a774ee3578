use zerovisor::arch::x86::idt::{gate, init_table, set_gate, split_u64, GATE_INTERRUPT, IDT_ENTRIES};
use zerovisor::diag::audit::{self, AuditKind};
use zerovisor::obs::trace::{self, Event};

#[test]
fn trace_dump_lists_events_oldest_first() {
    let mut ring = trace::new_trace();
    trace::emit(&mut ring, Event::VmCreate(7));
    trace::emit(&mut ring, Event::IommuInvalidateBdf(0, 3, 31, 7));
    trace::emit(&mut ring, Event::IommuMapRemoved(12));
    let lines: Vec<String> = trace::dump(&ring).into_iter().map(|l| String::from_utf8(l).unwrap()).collect();
    assert_eq!(lines, vec![
        "trace: vm_create id=7\r\n".to_string(),
        "trace: vtd_inval_bdf 0:3:31.7\r\n".to_string(),
        "trace: vtd_map_del dom=12\r\n".to_string(),
    ]);
    trace::clear(&mut ring);
    assert!(trace::dump(&ring).is_empty());
}

#[test]
fn trace_keeps_the_last_64_events() {
    let mut ring = trace::new_trace();
    for i in 0..70u64 {
        trace::emit(&mut ring, Event::VmStart(i));
    }
    let lines = trace::dump(&ring);
    assert_eq!(lines.len(), 64);
    assert_eq!(lines[0], b"trace: vm_start id=6\r\n".to_vec());
    assert_eq!(lines[63], b"trace: vm_start id=69\r\n".to_vec());
}

#[test]
fn audit_dump_formats_devices_and_domains() {
    let mut ring = audit::new_audit();
    audit::record(&mut ring, AuditKind::BootStart);
    audit::record(&mut ring, AuditKind::IommuAssignAdded { seg: 0, bus: 2, dev: 1, func: 0, dom: 5 });
    audit::record(&mut ring, AuditKind::VmCreate(0x1_0000_0003));
    let lines: Vec<String> = audit::dump(&ring).into_iter().map(|l| String::from_utf8(l).unwrap()).collect();
    assert_eq!(lines, vec![
        "audit: boot_start\r\n".to_string(),
        "audit: iommu_assign_add bdf=0:2:1.0 dom=5\r\n".to_string(),
        "audit: vm_create id=3\r\n".to_string(),
    ]);
}

#[test]
fn idt_gate_splits_the_handler_address() {
    assert_eq!(split_u64(0x1122_3344_5566_7788), (0x7788, 0x5566, 0x1122_3344));
    let g = gate(0xFFFF_8000_0010_2030, 0x38, 1, GATE_INTERRUPT);
    assert_eq!((g.offset_low, g.offset_mid, g.offset_high), (0x2030, 0x0010, 0xFFFF_8000));
    assert_eq!((g.selector, g.ist, g.type_attr, g.zero), (0x38, 1, 0x8E, 0));
}

#[test]
fn idt_table_routes_every_vector_and_one_can_be_replaced() {
    let mut idt = init_table(0x1234_5678, 0x08);
    assert_eq!(idt.len(), IDT_ENTRIES);
    assert!(idt.iter().all(|e| *e == gate(0x1234_5678, 0x08, 0, GATE_INTERRUPT)));
    set_gate(&mut idt, 14, 0xABCD_0000, 0x08, 2, GATE_INTERRUPT);
    assert_eq!(idt[14], gate(0xABCD_0000, 0x08, 2, GATE_INTERRUPT));
    assert_eq!(idt[13], gate(0x1234_5678, 0x08, 0, GATE_INTERRUPT));
}
