use zerovisor::arch::x86::vm::fields::VmcsField;
use zerovisor::arm64::{
    cpu_init, has_virtualization_support, hal_error_of, Arm64Error, Arm64MemoryMgr, ArmVheEngine, HalError,
    HCR_AMO, HCR_FMO, HCR_IMO, HCR_RW, HCR_TGE,
};
use zerovisor::migrate::dirty::DirtyBitmap;
use zerovisor::migrate::scan::{scan_ept, scan_npt, scan_tables};
use zerovisor::mm::ept::ept_toggle_exec;
use zerovisor::mm::pages::PhysPages;

#[test]
fn test_vmcs_fields() {
    // Control fields
    assert_eq!(VmcsField::PIN_BASED_VM_EXEC_CONTROL.encoding(), 0x4000);
    assert_eq!(VmcsField::CPU_BASED_VM_EXEC_CONTROL.encoding(), 0x4002);
    assert_eq!(VmcsField::SECONDARY_VM_EXEC_CONTROL.encoding(), 0x401E);
    assert_eq!(VmcsField::VM_EXIT_CONTROLS.encoding(), 0x400C);
    assert_eq!(VmcsField::VM_ENTRY_CONTROLS.encoding(), 0x4012);

    // Guest state fields
    assert_eq!(VmcsField::GUEST_CR0.encoding(), 0x6800);
    assert_eq!(VmcsField::GUEST_CR3.encoding(), 0x6802);
    assert_eq!(VmcsField::GUEST_CR4.encoding(), 0x6804);
    assert_eq!(VmcsField::GUEST_RIP.encoding(), 0x681E);
    assert_eq!(VmcsField::GUEST_RSP.encoding(), 0x681C);
    assert_eq!(VmcsField::GUEST_RFLAGS.encoding(), 0x6820);

    // General purpose registers
    assert_eq!(VmcsField::GUEST_RAX.encoding(), 0x6828);
    assert_eq!(VmcsField::GUEST_RBX.encoding(), 0x682A);
    assert_eq!(VmcsField::GUEST_RCX.encoding(), 0x682C);
    assert_eq!(VmcsField::GUEST_RDX.encoding(), 0x682E);
    assert_eq!(VmcsField::GUEST_RSI.encoding(), 0x6830);
    assert_eq!(VmcsField::GUEST_RDI.encoding(), 0x6832);
    assert_eq!(VmcsField::GUEST_RBP.encoding(), 0x6834);
    assert_eq!(VmcsField::GUEST_R8.encoding(), 0x6836);
    assert_eq!(VmcsField::GUEST_R9.encoding(), 0x6838);
    assert_eq!(VmcsField::GUEST_R10.encoding(), 0x683A);
    assert_eq!(VmcsField::GUEST_R11.encoding(), 0x683C);
    assert_eq!(VmcsField::GUEST_R12.encoding(), 0x683E);
    assert_eq!(VmcsField::GUEST_R13.encoding(), 0x6840);
    assert_eq!(VmcsField::GUEST_R14.encoding(), 0x6842);
    assert_eq!(VmcsField::GUEST_R15.encoding(), 0x6844);

    // Segment registers
    assert_eq!(VmcsField::GUEST_ES_SELECTOR.encoding(), 0x0800);
    assert_eq!(VmcsField::GUEST_CS_SELECTOR.encoding(), 0x0802);
    assert_eq!(VmcsField::GUEST_SS_SELECTOR.encoding(), 0x0804);
    assert_eq!(VmcsField::GUEST_DS_SELECTOR.encoding(), 0x0806);
    assert_eq!(VmcsField::GUEST_FS_SELECTOR.encoding(), 0x0808);
    assert_eq!(VmcsField::GUEST_GS_SELECTOR.encoding(), 0x080A);

    // Host state fields
    assert_eq!(VmcsField::HOST_CR0.encoding(), 0x6C00);
    assert_eq!(VmcsField::HOST_CR3.encoding(), 0x6C02);
    assert_eq!(VmcsField::HOST_CR4.encoding(), 0x6C04);
    assert_eq!(VmcsField::HOST_RIP.encoding(), 0x6C16);
    assert_eq!(VmcsField::HOST_RSP.encoding(), 0x6C14);

    // Extended features
    assert_eq!(VmcsField::EPT_POINTER.encoding(), 0x201A);
    assert_eq!(VmcsField::VIRTUAL_PROCESSOR_ID.encoding(), 0x0000);
    assert_eq!(VmcsField::MSR_BITMAP.encoding(), 0x2004);
    assert_eq!(VmcsField::IO_BITMAP_A.encoding(), 0x2000);
    assert_eq!(VmcsField::IO_BITMAP_B.encoding(), 0x2002);

    // VM exit information
    assert_eq!(VmcsField::EXIT_REASON.encoding(), 0x4402);
    assert_eq!(VmcsField::EXIT_QUALIFICATION.encoding(), 0x6400);
    assert_eq!(VmcsField::GUEST_LINEAR_ADDR.encoding(), 0x640A);
    assert_eq!(VmcsField::GUEST_PHYS_ADDR.encoding(), 0x2400);
}

#[test]
fn arm64_el2_presence_decides_cpu_init() {
    assert!(!has_virtualization_support(0));
    assert!(has_virtualization_support(0x100));
    assert!(has_virtualization_support(0xF00));
    assert!(!has_virtualization_support(0xF0FF));
    assert_eq!(cpu_init(0x11), Err(HalError::HardwareNotSupported));
    assert_eq!(cpu_init(0x1111), Ok(HCR_RW | HCR_AMO | HCR_IMO | HCR_FMO | HCR_TGE));
    assert_eq!(cpu_init(0x1111), Ok(0x8800_0038));
}

#[test]
fn arm64_errors_map_to_hardware_errors() {
    assert_eq!(hal_error_of(Arm64Error::UnsupportedCpu), HalError::HardwareNotSupported);
    assert_eq!(hal_error_of(Arm64Error::VirtualizationNotSupported), HalError::HardwareNotSupported);
    assert_eq!(hal_error_of(Arm64Error::InvalidSystemRegister), HalError::InitializationFailed);
    assert_eq!(hal_error_of(Arm64Error::MemoryError), HalError::InitializationFailed);
    assert_eq!(hal_error_of(Arm64Error::InterruptError), HalError::InitializationFailed);
}

#[test]
fn arm64_memory_is_identity_mapped() {
    let mut m = Arm64MemoryMgr::init().unwrap();
    assert_eq!(m.translate(0x1234_5000), Some(0x1234_5000));
    assert_eq!(m.page_size(), 4096);
    assert_eq!(m.allocate_physical(4096, 4096), Ok(0));
    assert!(m.is_valid_address(0xdead_0000));
    let mut e = ArmVheEngine::init().unwrap();
    assert!(ArmVheEngine::is_supported());
    assert_eq!(e.create_vm(), Ok(1));
}

/// Four table pages at 0x1000: PML4, PDPT, PD, PT.
fn nested_tables(dirty: u64) -> PhysPages {
    let mut words = vec![0u64; 2048];
    words[0] = 0x2000 | 1; // PML4[0] -> PDPT
    words[512] = 0x3000 | 1; // PDPT[0] -> PD
    words[512 + 1] = 0x4000_0000 | 0x80 | 1 | dirty; // PDPT[1]: dirty 1 GiB leaf
    words[1024] = 0x4000 | 1; // PD[0] -> PT
    words[1024 + 1] = 0x20_0000 | 0x80 | 1 | dirty; // PD[1]: dirty 2 MiB leaf
    words[1536 + 3] = 0x9000 | 1 | dirty; // PT[3]: dirty 4 KiB page
    words[1536 + 5] = 0xA000 | 1; // PT[5]: clean
    PhysPages { base: 0x1000, words }
}

#[test]
fn ept_scan_reports_dirty_runs_in_address_order() {
    let mut mem = nested_tables(0x200);
    let (marks, n) = scan_tables(&mut mem, 0x1000, 0x8000_0000, false, true);
    assert_eq!(marks, vec![(3, 1), (0x200, 0x200), (0x40000, 0x40000)]);
    assert_eq!(n, 1 + 0x200 + 0x40000);
    // Without clearing, the tables stay as they were.
    assert_eq!(mem.words, nested_tables(0x200).words);
}

#[test]
fn ept_scan_sets_bitmap_and_clears_flags() {
    let mut mem = nested_tables(0x300);
    let mut bm = DirtyBitmap::allocate(0x80000).unwrap();
    let n = scan_ept(&mut mem, 0x1000, 0x8000_0000, &mut bm, true);
    assert_eq!(n, 262657);
    assert_eq!(bm.count_set(), 262657);
    let set = bm.for_each_set();
    assert_eq!(set[0], 3);
    assert_eq!(set[1], 0x200);
    assert_eq!(set[513], 0x40000);
    // Accessed and dirty flags are gone: a second scan finds nothing.
    assert_eq!(mem.words[1536 + 3], 0x9000 | 1);
    let mut bm2 = DirtyBitmap::allocate(0x80000).unwrap();
    assert_eq!(scan_ept(&mut mem, 0x1000, 0x8000_0000, &mut bm2, true), 0);
    assert_eq!(bm2.count_set(), 0);
}

#[test]
fn scan_stops_at_limit_and_skips_missing_root() {
    let mut mem = nested_tables(0x200);
    let mut bm = DirtyBitmap::allocate(0x80000).unwrap();
    // Below 2 MiB only the 4 KiB page is seen.
    assert_eq!(scan_ept(&mut mem, 0x1000, 0x20_0000, &mut bm, false), 1);
    assert_eq!(bm.for_each_set(), vec![3]);
    assert_eq!(scan_ept(&mut mem, 0, 0x8000_0000, &mut bm, false), 0);
}

#[test]
fn npt_scan_uses_bit_six() {
    let mut mem = nested_tables(0x40);
    let mut bm = DirtyBitmap::allocate(0x80000).unwrap();
    assert_eq!(scan_npt(&mut mem, 0x1000, 0x8000_0000, &mut bm, true), 262657);
    // EPT's dirty bit is not set here: the EPT scan sees nothing.
    let mut mem2 = nested_tables(0x40);
    let mut bm2 = DirtyBitmap::allocate(0x80000).unwrap();
    assert_eq!(scan_ept(&mut mem2, 0x1000, 0x8000_0000, &mut bm2, false), 0);
}

#[test]
fn toggle_exec_sets_and_clears_leaf_execute_bits() {
    let mut mem = nested_tables(0);
    // The page table's 512 entries, the 2 MiB leaf and the 1 GiB leaf.
    assert_eq!(ept_toggle_exec(&mut mem, 0x1000, 0, 0x8000_0000, true), 514);
    assert_eq!(mem.words[1536 + 3], 0x9000 | 1 | 4);
    assert_eq!(mem.words[1536 + 7], 4);
    assert_eq!(mem.words[1024 + 1], 0x20_0000 | 0x80 | 1 | 4);
    assert_eq!(mem.words[512 + 1], 0x4000_0000 | 0x80 | 1 | 4);
    // Table pointers are left alone.
    assert_eq!(mem.words[0], 0x2000 | 1);
    assert_eq!(mem.words[1024], 0x4000 | 1);
    // Setting again changes nothing; clearing restores the tables.
    assert_eq!(ept_toggle_exec(&mut mem, 0x1000, 0, 0x8000_0000, true), 0);
    assert_eq!(ept_toggle_exec(&mut mem, 0x1000, 0, 0x8000_0000, false), 514);
    assert_eq!(mem.words, nested_tables(0).words);
}

#[test]
fn toggle_exec_covers_the_pages_of_an_unaligned_range() {
    let mut mem = nested_tables(0);
    assert_eq!(ept_toggle_exec(&mut mem, 0x1000, 0x3123, 0x1000, false), 0);
    assert_eq!(ept_toggle_exec(&mut mem, 0x1000, 0x3123, 0x1000, true), 2);
    assert_eq!(mem.words[1536 + 3], 0x9000 | 1 | 4);
    assert_eq!(mem.words[1536 + 4], 4);
    assert_eq!(mem.words[1536 + 5], 0xA000 | 1);
}

#[test]
fn toggle_exec_empty_range_or_missing_root_changes_nothing() {
    let mut mem = nested_tables(0);
    assert_eq!(ept_toggle_exec(&mut mem, 0x1000, 0x3000, 0, true), 0);
    assert_eq!(ept_toggle_exec(&mut mem, 0, 0, 0x8000_0000, true), 0);
    assert_eq!(mem.words, nested_tables(0).words);
}

#[test]
fn vm_table_pages_follow_vendor_and_limit() {
    // Intel: one PML4 and one PDPT of 1 GiB leaves
    assert_eq!(zerovisor::hv::vm::vm_table_need(zerovisor::arch::x86::vm::Vendor::Intel, 0), Some(2));
    // AMD: PML4, PDPT and one directory per GiB (at least one GiB)
    assert_eq!(zerovisor::hv::vm::vm_table_need(zerovisor::arch::x86::vm::Vendor::Amd, 64 << 20), Some(3));
    assert_eq!(zerovisor::hv::vm::vm_table_need(zerovisor::arch::x86::vm::Vendor::Amd, 4 << 30), Some(6));
    assert_eq!(zerovisor::hv::vm::vm_table_need(zerovisor::arch::x86::vm::Vendor::Unknown, 0), None);
    assert_eq!(zerovisor::hv::vm::vm_table_need(zerovisor::arch::x86::vm::Vendor::Intel, 1 << 40), None);
    assert!(zerovisor::hv::vm::vm_tables_fit(zerovisor::arch::x86::vm::Vendor::Amd, 0, 0x10_0000));
    assert!(!zerovisor::hv::vm::vm_tables_fit(zerovisor::arch::x86::vm::Vendor::Amd, 0, 0x10_0001));
    assert!(!zerovisor::hv::vm::vm_tables_fit(zerovisor::arch::x86::vm::Vendor::Intel, 0, 0x10_0000_0000_0000 - 4096));
    assert!(zerovisor::hv::vm::vm_tables_fit(zerovisor::arch::x86::vm::Vendor::Unknown, 0, 1));
    assert_eq!(zerovisor::virtio::mib_line(512), b"512 MiB\r\n".to_vec());
}
