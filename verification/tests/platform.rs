use zerovisor::arch::x86::cpuid::{has_npt, has_svm, has_vmx, has_x2apic, CpuidResult};
use zerovisor::arch::x86::vm::vmcs::{satisfy_controls, vmcs_region_image, vmcs_revision_id};
use zerovisor::arch::x86::vm::vmx::{feature_control_allows_vmx, vmx_adjust_cr0_cr4, vmx_op_failed};
use zerovisor::arch::x86::vm::{detect_vendor, Vendor};
use zerovisor::firmware::acpi::{calc_checksum, madt_list_cpus_from, parse_rsdp, validate_sdt, CpuEntry};
use zerovisor::mm::ept::eptp_from_pml4;
use zerovisor::obs::metrics::Counter;
use zerovisor::obs::ring::Ring;
use zerovisor::time::{busy_wait_tsc, calibrate_tsc, spin_done, WaitPlan};
use zerovisor::util::crc32::crc32;
use zerovisor::util::format::{u32_to_dec, u64_hex};

fn cpuid(eax: u32, ebx: u32, ecx: u32, edx: u32) -> CpuidResult {
    CpuidResult { eax, ebx, ecx, edx }
}

#[test]
fn crc32_check_value() {
    assert_eq!(crc32(b"123456789"), 0xCBF4_3926);
    assert_eq!(crc32(b""), 0);
}

#[test]
fn decimal_and_hex_text() {
    let mut buf = [0u8; 20];
    let n = u32_to_dec(4_294_967_295, &mut buf);
    assert_eq!(&buf[..n], b"4294967295");
    let n = u32_to_dec(0, &mut buf);
    assert_eq!(&buf[..n], b"0");
    let n = u64_hex(0x1AF4, &mut buf);
    assert_eq!(&buf[..n], b"1AF4");
    let n = u64_hex(0, &mut buf);
    assert_eq!(&buf[..n], b"0");
}

#[test]
fn cpu_features_from_cpuid_bits() {
    assert!(has_vmx(cpuid(0, 0, 1 << 5, 0)));
    assert!(!has_vmx(cpuid(0, 0, 1 << 4, 0)));
    assert!(has_svm(cpuid(0, 0, 1 << 2, 0)));
    assert!(has_x2apic(cpuid(0, 0, 1 << 21, 0)));
    assert!(has_npt(cpuid(0, 0, 0, 1)));
    assert_eq!(detect_vendor(cpuid(0, 0x756E_6547, 0x6C65_746E, 0x4965_6E69)), Vendor::Intel);
    assert_eq!(detect_vendor(cpuid(0, 0x6874_7541, 0x444D_4163, 0x6974_6E65)), Vendor::Amd);
    assert_eq!(detect_vendor(cpuid(0, 1, 2, 3)), Vendor::Unknown);
}

#[test]
fn vmx_control_and_fixed_bits() {
    assert_eq!(satisfy_controls(0b1010, 0b0111, 0b0001), 0b0011);
    assert_eq!(vmx_adjust_cr0_cr4(0, 0, 0x21, 0xFFFF_FFFF, 0x2000, 0x3FFF), (0x21, 0x2000));
    assert_eq!(vmcs_revision_id(0xFFFF_FFFF_8000_0004), 4);
    let img = vmcs_region_image(0x12);
    assert_eq!(img.len(), 4096);
    assert_eq!(&img[0..4], &[0x12, 0, 0, 0]);
    assert!(img[4..].iter().all(|&b| b == 0));
    assert!(vmx_op_failed(1));
    assert!(vmx_op_failed(0x40));
    assert!(!vmx_op_failed(0x2));
    assert!(feature_control_allows_vmx(0).is_ok());
    assert!(feature_control_allows_vmx(0b101).is_ok());
    assert!(feature_control_allows_vmx(0b001).is_err());
}

fn table(sig: &[u8; 4], body: &[u8]) -> Vec<u8> {
    let mut t = vec![0u8; 36];
    t[0..4].copy_from_slice(sig);
    t.extend_from_slice(body);
    let len = t.len() as u32;
    t[4..8].copy_from_slice(&len.to_le_bytes());
    let sum = calc_checksum(&t);
    t[9] = 0u8.wrapping_sub(sum);
    t
}

#[test]
fn tables_check_and_madt_lists_processors() {
    let mut body = vec![0u8; 8];
    body.extend_from_slice(&[0, 8, 0, 1, 1, 0, 0, 0]);
    body.extend_from_slice(&[0, 8, 1, 5, 1, 0, 0, 0]);
    body.extend_from_slice(&[9, 16, 0, 0, 0x00, 0x01, 0, 0, 0, 0, 0, 0, 0, 0, 0, 0]);
    body.extend_from_slice(&[1, 12, 0, 0, 0, 0, 0, 0, 0, 0, 0, 0]);
    let t = table(b"APIC", &body);
    assert_eq!(calc_checksum(&t), 0);
    assert!(validate_sdt(&t));
    assert_eq!(madt_list_cpus_from(&t), vec![CpuEntry::LocalApic(1), CpuEntry::LocalApic(5), CpuEntry::X2Apic(0x100)]);
    let mut bad = t.clone();
    bad[40] ^= 1;
    assert!(!validate_sdt(&bad));
}

#[test]
fn rsdp_parse() {
    let mut b = vec![0u8; 36];
    b[0..8].copy_from_slice(b"RSD PTR ");
    b[15] = 2;
    b[16..20].copy_from_slice(&0x7FE0_0000u32.to_le_bytes());
    b[20..24].copy_from_slice(&36u32.to_le_bytes());
    b[24..32].copy_from_slice(&0x7FE1_0000u64.to_le_bytes());
    let sum = calc_checksum(&b);
    b[8] = 0u8.wrapping_sub(sum);
    let r = parse_rsdp(&b).unwrap();
    assert_eq!(r.revision, 2);
    assert_eq!(r.rsdt_address, 0x7FE0_0000);
    assert_eq!(r.xsdt_address, 0x7FE1_0000);
    b[9] ^= 1;
    assert_eq!(parse_rsdp(&b), None);
}

#[test]
fn eptp_encodes_write_back_and_four_levels() {
    assert_eq!(eptp_from_pml4(0x1234_5000) & 0xFFF, 0x1E);
    assert_eq!(eptp_from_pml4(0x1234_5000) & !0xFFF, 0x1234_5000);
}

#[test]
fn counters_wrap() {
    let mut c = Counter::new(u64::MAX);
    c.inc();
    assert_eq!(c.get(), 0);
    c.add(5);
    assert_eq!(c.get(), 5);
}

#[test]
fn ring_keeps_the_most_recent_entries() {
    let mut r = Ring::new(3, 0u32);
    for v in 1..=5u32 {
        r.record(v);
    }
    assert_eq!(r.recent(), vec![3, 4, 5]);
    let mut s = Ring::new(3, 0u32);
    s.record(9);
    assert_eq!(s.recent(), vec![9]);
}

#[test]
fn tsc_waits_and_calibration() {
    assert_eq!(busy_wait_tsc(10, 0), WaitPlan::Stall { usec: 10 });
    assert_eq!(busy_wait_tsc(10, 3_000_000_000), WaitPlan::Spin { ticks: 30_000 });
    assert!(spin_done(u64::MAX - 1, 5, 7));
    assert!(!spin_done(u64::MAX - 1, 5, 8));
    assert_eq!(calibrate_tsc(Some(2_000_000_000), 0, 0), 2_000_000_000);
    assert_eq!(calibrate_tsc(None, 1000, 1000 + 150_000), 3_000_000);
}
